//! The error type shared by the session client and the file hashing entry
//! points. Each variant carries plain data, so that both the verified
//! parsing code and the unverified I/O shell can construct and render it.

use vstd::prelude::*;

verus! {

/// The character for one decimal digit value.
pub open spec fn dec_digit(n: nat) -> char
    recommends
        n < 10,
{
    if n == 0 {
        '0'
    } else if n == 1 {
        '1'
    } else if n == 2 {
        '2'
    } else if n == 3 {
        '3'
    } else if n == 4 {
        '4'
    } else if n == 5 {
        '5'
    } else if n == 6 {
        '6'
    } else if n == 7 {
        '7'
    } else if n == 8 {
        '8'
    } else {
        '9'
    }
}

/// The decimal rendering of a number, most-significant digit first.
pub open spec fn dec_digits(n: nat) -> Seq<char>
    decreases n,
{
    if n < 10 {
        seq![dec_digit(n)]
    } else {
        dec_digits(n / 10) + seq![dec_digit(n % 10)]
    }
}

/// Append the character for one decimal digit value.
fn push_dec_digit(s: &mut String, n: usize)
    requires
        n < 10,
    ensures
        final(s)@ == old(s)@.push(dec_digit(n as nat)),
{
    proof {
        reveal_strlit("0");
        reveal_strlit("1");
        reveal_strlit("2");
        reveal_strlit("3");
        reveal_strlit("4");
        reveal_strlit("5");
        reveal_strlit("6");
        reveal_strlit("7");
        reveal_strlit("8");
        reveal_strlit("9");
    }
    if n == 0 {
        s.append("0");
    } else if n == 1 {
        s.append("1");
    } else if n == 2 {
        s.append("2");
    } else if n == 3 {
        s.append("3");
    } else if n == 4 {
        s.append("4");
    } else if n == 5 {
        s.append("5");
    } else if n == 6 {
        s.append("6");
    } else if n == 7 {
        s.append("7");
    } else if n == 8 {
        s.append("8");
    } else {
        s.append("9");
    }
    proof {
        assert(s@ =~= old(s)@.push(dec_digit(n as nat)));
    }
}

/// Render a number in decimal.
pub fn usize_to_string(n: usize) -> (r: String)
    ensures
        r@ == dec_digits(n as nat),
    decreases n,
{
    if n < 10 {
        let mut s = String::new();
        push_dec_digit(&mut s, n);
        proof {
            assert(s@ =~= dec_digits(n as nat));
        }
        s
    } else {
        let mut s = usize_to_string(n / 10);
        push_dec_digit(&mut s, n % 10);
        proof {
            assert(s@ =~= dec_digits((n / 10) as nat) + seq![dec_digit((n % 10) as nat)]);
        }
        s
    }
}

/// Everything that can go wrong in the client: I/O trouble (captured as
/// its message), a malformed reply, or a reply whose status code signals
/// failure.
#[derive(Debug)]
pub enum AnidbError {
    /// An I/O failure, carrying the underlying error's message.
    Io(String),
    /// Reply bytes that are not valid UTF-8 where text was expected.
    Utf8Error,
    /// A reply status field that is not a number.
    ParseIntError,
    /// A fixed description of a protocol-level problem.
    StaticError(String),
    /// A reply whose status code signals failure, with its payload.
    ErrorCode(usize, String),
    /// A description of a malformed reply.
    Error(String),
}

/// What `description` returns for each variant.
pub open spec fn description_spec(e: &AnidbError) -> Seq<char> {
    match e {
        AnidbError::Io(s) => s@,
        AnidbError::Utf8Error => "invalid utf-8 sequence"@,
        AnidbError::ParseIntError => "invalid digit found in string"@,
        AnidbError::StaticError(s) => s@,
        AnidbError::ErrorCode(_, _) => "Error Code"@,
        AnidbError::Error(s) => s@,
    }
}

/// What `message` returns for each variant.
pub open spec fn message_spec(e: &AnidbError) -> Seq<char> {
    match e {
        AnidbError::ErrorCode(code, s) => "Error "@ + dec_digits(*code as nat) + " - "@ + s@,
        _ => description_spec(e),
    }
}

impl AnidbError {
    /// A short description of the error kind.
    pub fn description(&self) -> (r: String)
        ensures
            r@ == description_spec(self),
    {
        match self {
            AnidbError::Io(s) => s.clone(),
            AnidbError::Utf8Error => "invalid utf-8 sequence".to_owned(),
            AnidbError::ParseIntError => "invalid digit found in string".to_owned(),
            AnidbError::StaticError(s) => s.clone(),
            AnidbError::ErrorCode(_, _) => "Error Code".to_owned(),
            AnidbError::Error(s) => s.clone(),
        }
    }

    /// The full display text of the error.
    pub fn message(&self) -> (r: String)
        ensures
            r@ == message_spec(self),
    {
        match self {
            AnidbError::ErrorCode(code, s) => {
                let mut m = String::new();
                m.append("Error ");
                let num = usize_to_string(*code);
                m.append(num.as_str());
                m.append(" - ");
                m.append(s.as_str());
                m
            },
            _ => self.description(),
        }
    }
}

} // verus!
