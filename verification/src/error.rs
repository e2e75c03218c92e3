use vstd::prelude::*;
use vstd::string::StringExecFns;

verus! {

/// What an `ErrorKind` holds, every string taken as its characters.
pub enum Fault {
    Syntax(Seq<char>),
    Encoding,
    TagMismatch { expected: Seq<char>, found: Seq<char> },
    UnexpectedEof { open_tag: Seq<char> },
    AttributeSyntax(Seq<char>),
    AttributeKey,
    AttributeValue(Seq<char>),
}

/// What a `ParseError` holds.
pub struct Failure {
    pub position: usize,
    pub fault: Fault,
}

/// Why a document could not be converted.
#[derive(Debug, PartialEq)]
pub enum ErrorKind {
    /// The markup is malformed; the tokenizer's diagnostic.
    Syntax(String),
    /// A tag name or a piece of character data is not valid UTF-8.
    Encoding,
    /// A closing tag names another element than the one that is open.
    TagMismatch { expected: String, found: String },
    /// The document ends while an element is still open.
    UnexpectedEof { open_tag: String },
    /// An attribute is malformed; the tokenizer's diagnostic.
    AttributeSyntax(String),
    /// The name of an attribute is not valid UTF-8.
    AttributeKey,
    /// The value of an attribute cannot be unescaped; the tokenizer's diagnostic.
    AttributeValue(String),
}

/// A failed conversion: what went wrong, and the byte offset that the
/// tokenizer had reached in the document.
#[derive(Debug, PartialEq)]
pub struct ParseError {
    pub position: usize,
    pub kind: ErrorKind,
}

impl View for ErrorKind {
    type V = Fault;

    open spec fn view(&self) -> Fault {
        match self {
            ErrorKind::Syntax(diagnostic) => Fault::Syntax(diagnostic@),
            ErrorKind::Encoding => Fault::Encoding,
            ErrorKind::TagMismatch { expected, found } => Fault::TagMismatch {
                expected: expected@,
                found: found@,
            },
            ErrorKind::UnexpectedEof { open_tag } => Fault::UnexpectedEof { open_tag: open_tag@ },
            ErrorKind::AttributeSyntax(diagnostic) => Fault::AttributeSyntax(diagnostic@),
            ErrorKind::AttributeKey => Fault::AttributeKey,
            ErrorKind::AttributeValue(diagnostic) => Fault::AttributeValue(diagnostic@),
        }
    }
}

impl Clone for ErrorKind {
    /// An error kind that holds the same.
    fn clone(&self) -> (copy: Self)
        ensures
            copy@ == self@,
    {
        match self {
            ErrorKind::Syntax(diagnostic) => ErrorKind::Syntax(diagnostic.clone()),
            ErrorKind::Encoding => ErrorKind::Encoding,
            ErrorKind::TagMismatch { expected, found } => ErrorKind::TagMismatch {
                expected: expected.clone(),
                found: found.clone(),
            },
            ErrorKind::UnexpectedEof { open_tag } => ErrorKind::UnexpectedEof {
                open_tag: open_tag.clone(),
            },
            ErrorKind::AttributeSyntax(diagnostic) => ErrorKind::AttributeSyntax(
                diagnostic.clone(),
            ),
            ErrorKind::AttributeKey => ErrorKind::AttributeKey,
            ErrorKind::AttributeValue(diagnostic) => ErrorKind::AttributeValue(diagnostic.clone()),
        }
    }
}

impl Clone for ParseError {
    /// An error that holds the same.
    fn clone(&self) -> (copy: Self)
        ensures
            copy@ == self@,
    {
        ParseError { position: self.position, kind: self.kind.clone() }
    }
}

impl View for ParseError {
    type V = Failure;

    open spec fn view(&self) -> Failure {
        Failure { position: self.position, fault: self.kind@ }
    }
}

/// The character that writes the decimal digit `d`.
pub open spec fn digit_char(d: nat) -> char {
    if d == 0 {
        '0'
    } else if d == 1 {
        '1'
    } else if d == 2 {
        '2'
    } else if d == 3 {
        '3'
    } else if d == 4 {
        '4'
    } else if d == 5 {
        '5'
    } else if d == 6 {
        '6'
    } else if d == 7 {
        '7'
    } else if d == 8 {
        '8'
    } else {
        '9'
    }
}

/// The number `n` written in decimal, without leading zeros.
pub open spec fn decimal_text(n: nat) -> Seq<char>
    decreases n,
{
    if n < 10 {
        seq![digit_char(n)]
    } else {
        decimal_text(n / 10).push(digit_char(n % 10))
    }
}

/// The words in which a failure is reported.
pub open spec fn message_of(failure: Failure) -> Seq<char> {
    let at = decimal_text(failure.position as nat);
    match failure.fault {
        Fault::Syntax(diagnostic) => "Error at position "@ + at + ": "@ + diagnostic,
        Fault::Encoding => "Error at position "@ + at + ": invalid UTF-8"@,
        Fault::TagMismatch { expected, found } => "Error at position "@ + at + ". Expected "@
            + expected + ", got "@ + found + " instead"@,
        Fault::UnexpectedEof { open_tag } => "Unexpected EOF at "@ + at
            + ". Expected closing tag </ "@ + open_tag + ">"@,
        Fault::AttributeSyntax(diagnostic) => "Failed to parse attribute at position "@ + at
            + ": "@ + diagnostic,
        Fault::AttributeKey => "Failed to parse attribute key at position "@ + at
            + ": invalid UTF-8"@,
        Fault::AttributeValue(diagnostic) => "Failed to parse attribute value at position "@ + at
            + ": "@ + diagnostic,
    }
}

/// The decimal digit `d` as a string.
fn digit_str(d: usize) -> (r: &'static str)
    requires
        d < 10,
    ensures
        r@ == seq![digit_char(d as nat)],
{
    proof {
        reveal_strlit("0");
        reveal_strlit("1");
        reveal_strlit("2");
        reveal_strlit("3");
        reveal_strlit("4");
        reveal_strlit("5");
        reveal_strlit("6");
        reveal_strlit("7");
        reveal_strlit("8");
        reveal_strlit("9");
    }
    let r = if d == 0 {
        "0"
    } else if d == 1 {
        "1"
    } else if d == 2 {
        "2"
    } else if d == 3 {
        "3"
    } else if d == 4 {
        "4"
    } else if d == 5 {
        "5"
    } else if d == 6 {
        "6"
    } else if d == 7 {
        "7"
    } else if d == 8 {
        "8"
    } else {
        "9"
    };
    r
}

/// Writes `n` in decimal.
pub fn decimal_string(n: usize) -> (r: String)
    ensures
        r@ == decimal_text(n as nat),
    decreases n,
{
    if n < 10 {
        digit_str(n).to_owned()
    } else {
        let mut r = decimal_string(n / 10);
        r.append(digit_str(n % 10));
        r
    }
}

impl ParseError {
    /// The words in which the error is reported: what went wrong, and the
    /// byte offset in decimal.
    pub fn message(&self) -> (r: String)
        ensures
            r@ == message_of(self@),
    {
        let at = decimal_string(self.position);
        match &self.kind {
            ErrorKind::Syntax(diagnostic) => {
                let mut r = "Error at position ".to_owned();
                r.append(at.as_str());
                r.append(": ");
                r.append(diagnostic.as_str());
                r
            },
            ErrorKind::Encoding => {
                let mut r = "Error at position ".to_owned();
                r.append(at.as_str());
                r.append(": invalid UTF-8");
                r
            },
            ErrorKind::TagMismatch { expected, found } => {
                let mut r = "Error at position ".to_owned();
                r.append(at.as_str());
                r.append(". Expected ");
                r.append(expected.as_str());
                r.append(", got ");
                r.append(found.as_str());
                r.append(" instead");
                r
            },
            ErrorKind::UnexpectedEof { open_tag } => {
                let mut r = "Unexpected EOF at ".to_owned();
                r.append(at.as_str());
                r.append(". Expected closing tag </ ");
                r.append(open_tag.as_str());
                r.append(">");
                r
            },
            ErrorKind::AttributeSyntax(diagnostic) => {
                let mut r = "Failed to parse attribute at position ".to_owned();
                r.append(at.as_str());
                r.append(": ");
                r.append(diagnostic.as_str());
                r
            },
            ErrorKind::AttributeKey => {
                let mut r = "Failed to parse attribute key at position ".to_owned();
                r.append(at.as_str());
                r.append(": invalid UTF-8");
                r
            },
            ErrorKind::AttributeValue(diagnostic) => {
                let mut r = "Failed to parse attribute value at position ".to_owned();
                r.append(at.as_str());
                r.append(": ");
                r.append(diagnostic.as_str());
                r
            },
        }
    }
}

} // verus!
