//! Error type shared by every fallible operation of the crate.
use vstd::prelude::*;
use vstd::string::StringExecFns;

verus! {

/// Error variants returned by the PICT reader and writer.
#[derive(Debug, Clone, PartialEq, Eq)]
pub enum PictError {
    /// The byte stream is malformed (truncated header, opcode runs
    /// past the end of the stream, a PackBits packet overruns its row, ...).
    InvalidData(String),
    /// The byte stream uses a feature this codec does not implement.
    Unsupported(String),
    /// The opcode stream ended without anything having been drawn.
    NoRaster,
}

/// `Result` alias used throughout the crate.
pub type Result<T> = core::result::Result<T, PictError>;

impl PictError {
    /// Construct a [`PictError::InvalidData`] from a message.
    pub fn invalid(msg: &str) -> (e: Self)
        ensures
            e is InvalidData,
            e->InvalidData_0@ == msg@,
    {
        PictError::InvalidData(String::from_str(msg))
    }

    /// Construct a [`PictError::Unsupported`] from a message.
    pub fn unsupported(msg: &str) -> (e: Self)
        ensures
            e is Unsupported,
            e->Unsupported_0@ == msg@,
    {
        PictError::Unsupported(String::from_str(msg))
    }
}

/// The text of an error, as a user would read it.
pub open spec fn error_text(e: PictError) -> Seq<char> {
    match e {
        PictError::InvalidData(m) => "invalid data: "@ + m@,
        PictError::Unsupported(m) => "unsupported: "@ + m@,
        PictError::NoRaster => "no raster opcode (PackBitsRect / DirectBitsRect) in PICT stream"@,
    }
}

impl PictError {
    /// The error as text: `invalid data: ..`, `unsupported: ..`, or
    /// the sentence for a stream without any raster.
    pub fn message(&self) -> (s: String)
        ensures
            s@ == error_text(*self),
    {
        match self {
            PictError::InvalidData(m) => {
                let mut s = String::from_str("invalid data: ");
                s.append(m.as_str());
                s
            },
            PictError::Unsupported(m) => {
                let mut s = String::from_str("unsupported: ");
                s.append(m.as_str());
                s
            },
            PictError::NoRaster => String::from_str("no raster opcode (PackBitsRect / DirectBitsRect) in PICT stream"),
        }
    }
}

/// The ASCII hex digit for the nibble `n`.
pub open spec fn hex_digit_spec(n: int) -> char {
    if n < 10 {
        (('0' as int) + n) as char
    } else {
        (('A' as int) + n - 10) as char
    }
}

/// Four upper-case hex digits of `v`, most significant first.
pub open spec fn hex4_spec(v: u16) -> Seq<char> {
    seq![
        hex_digit_spec((v / 4096) as int),
        hex_digit_spec(((v / 256) % 16) as int),
        hex_digit_spec(((v / 16) % 16) as int),
        hex_digit_spec((v % 16) as int),
    ]
}

fn hex_digit(n: u16) -> (s: &'static str)
    requires
        n < 16,
    ensures
        s@ == seq![hex_digit_spec(n as int)],
{
    proof {
        reveal_strlit("0");
        reveal_strlit("1");
        reveal_strlit("2");
        reveal_strlit("3");
        reveal_strlit("4");
        reveal_strlit("5");
        reveal_strlit("6");
        reveal_strlit("7");
        reveal_strlit("8");
        reveal_strlit("9");
        reveal_strlit("A");
        reveal_strlit("B");
        reveal_strlit("C");
        reveal_strlit("D");
        reveal_strlit("E");
        reveal_strlit("F");
    }
    match n {
        0 => "0",
        1 => "1",
        2 => "2",
        3 => "3",
        4 => "4",
        5 => "5",
        6 => "6",
        7 => "7",
        8 => "8",
        9 => "9",
        10 => "A",
        11 => "B",
        12 => "C",
        13 => "D",
        14 => "E",
        _ => "F",
    }
}

/// `prefix` followed by `0x` and the four hex digits of `v`.
pub fn message_with_hex(prefix: &str, v: u16) -> (s: String)
    ensures
        s@ == prefix@ + "0x"@ + hex4_spec(v),
{
    let mut s = String::from_str(prefix);
    s.append("0x");
    s.append(hex_digit(v / 4096));
    s.append(hex_digit((v / 256) % 16));
    s.append(hex_digit((v / 16) % 16));
    s.append(hex_digit(v % 16));
    proof {
        reveal_strlit("0x");
    }
    s
}

} // verus!
