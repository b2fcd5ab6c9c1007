//! The text side of the session protocol: replies are lines of the form
//! `NNN <payload>` (a three-digit status code, one separator byte, free
//! text), and the requests are fixed strings with the credentials or the
//! session id spliced in. Parsing and formatting are pure functions of the
//! bytes, so they live here, verified; the sockets stay outside.

use vstd::prelude::*;

use vstd::string::StrSliceExecFns;
use vstd::string::StringExecFns;

use crate::cutil::push_range;
use crate::errors::AnidbError;

verus! {

/// A decoded server reply: the numeric status code and the free-text rest
/// of the line.
pub struct ServerReply {
    /// The three-digit status code.
    pub code: usize,
    /// The payload after the code and its separator byte.
    pub data: String,
}

/// An ASCII decimal digit.
pub open spec fn is_dig(b: u8) -> bool {
    48 <= b <= 57
}

/// A UTF-8 continuation byte.
pub open spec fn is_cont(b: u8) -> bool {
    0x80 <= b <= 0xBF
}

/// Whether three bytes form a complete, valid UTF-8 sequence: three ASCII
/// bytes, an ASCII byte beside a two-byte sequence, or one three-byte
/// sequence.
pub open spec fn utf8_3_valid(a: u8, b: u8, c: u8) -> bool {
    ||| (a < 0x80 && b < 0x80 && c < 0x80)
    ||| (0xC2 <= a <= 0xDF && is_cont(b) && c < 0x80)
    ||| (a < 0x80 && 0xC2 <= b <= 0xDF && is_cont(c))
    ||| (a == 0xE0 && 0xA0 <= b <= 0xBF && is_cont(c))
    ||| (0xE1 <= a <= 0xEC && is_cont(b) && is_cont(c))
    ||| (a == 0xED && 0x80 <= b <= 0x9F && is_cont(c))
    ||| (0xEE <= a <= 0xEF && is_cont(b) && is_cont(c))
}

/// Whether three bytes parse as an unsigned number: digits only, or a plus
/// sign followed by digits.
pub open spec fn code_ok(a: u8, b: u8, c: u8) -> bool {
    ||| (is_dig(a) && is_dig(b) && is_dig(c))
    ||| (a == 43 && is_dig(b) && is_dig(c))
}

/// The number the three bytes spell.
pub open spec fn code_val(a: u8, b: u8, c: u8) -> int
    recommends
        code_ok(a, b, c),
{
    if a == 43 {
        (b - 48) * 10 + (c - 48)
    } else {
        (a - 48) * 100 + (b - 48) * 10 + (c - 48)
    }
}

/// What a lossy UTF-8 decode of arbitrary bytes yields.
pub uninterp spec fn lossy_of(bytes: Seq<u8>) -> Seq<char>;

/// Relies on String::from_utf8_lossy: the decode is a function of the
/// bytes alone, and bytes that are pure ASCII decode to themselves.
#[verifier::external_body]
fn from_utf8_lossy(bytes: &[u8]) -> (r: String)
    ensures
        r@ == lossy_of(bytes@),
        (forall|i: int| 0 <= i < bytes@.len() ==> bytes@[i] < 0x80) ==> r@ == bytes@.map_values(
            |b: u8| b as char,
        ),
{
    String::from_utf8_lossy(bytes).into_owned()
}

/// Parse the first `len` bytes of a server reply, expected in `NNN -`
/// form: at least five bytes, a numeric code in the first three, and the
/// payload from the fifth onward (the fourth byte is skipped unchecked).
pub fn parse_reply(reply: &[u8], len: usize) -> (r: Result<ServerReply, AnidbError>)
    requires
        len <= reply@.len(),
    ensures
        len < 5 ==> (r matches Err(AnidbError::StaticError(m)) && m@ == "Reply less than 5 chars"@),
        len >= 5 && !utf8_3_valid(reply@[0], reply@[1], reply@[2]) ==> r matches Err(
            AnidbError::Utf8Error,
        ),
        len >= 5 && utf8_3_valid(reply@[0], reply@[1], reply@[2]) && !code_ok(
            reply@[0],
            reply@[1],
            reply@[2],
        ) ==> r matches Err(AnidbError::ParseIntError),
        len >= 5 && code_ok(reply@[0], reply@[1], reply@[2]) ==> (r matches Ok(rep)
            && rep.code == code_val(reply@[0], reply@[1], reply@[2]) && rep.data@ == lossy_of(
            reply@.subrange(4, len as int),
        )),
{
    if len < 5 {
        return Err(AnidbError::StaticError("Reply less than 5 chars".to_owned()));
    }
    let a = reply[0];
    let b = reply[1];
    let c = reply[2];
    let ascii3 = a < 0x80 && b < 0x80 && c < 0x80;
    let two_then_one = 0xC2 <= a && a <= 0xDF && 0x80 <= b && b <= 0xBF && c < 0x80;
    let one_then_two = a < 0x80 && 0xC2 <= b && b <= 0xDF && 0x80 <= c && c <= 0xBF;
    let three_e0 = a == 0xE0 && 0xA0 <= b && b <= 0xBF && 0x80 <= c && c <= 0xBF;
    let three_mid = 0xE1 <= a && a <= 0xEC && 0x80 <= b && b <= 0xBF && 0x80 <= c && c <= 0xBF;
    let three_ed = a == 0xED && 0x80 <= b && b <= 0x9F && 0x80 <= c && c <= 0xBF;
    let three_hi = 0xEE <= a && a <= 0xEF && 0x80 <= b && b <= 0xBF && 0x80 <= c && c <= 0xBF;
    if !(ascii3 || two_then_one || one_then_two || three_e0 || three_mid || three_ed || three_hi) {
        return Err(AnidbError::Utf8Error);
    }
    let code: usize;
    if 48 <= a && a <= 57 && 48 <= b && b <= 57 && 48 <= c && c <= 57 {
        code = (a - 48) as usize * 100 + (b - 48) as usize * 10 + (c - 48) as usize;
    } else if a == 43 && 48 <= b && b <= 57 && 48 <= c && c <= 57 {
        code = (b - 48) as usize * 10 + (c - 48) as usize;
    } else {
        return Err(AnidbError::ParseIntError);
    }
    let mut payload: Vec<u8> = Vec::new();
    push_range(&mut payload, reply, 4, len);
    let data = from_utf8_lossy(payload.as_slice());
    Ok(ServerReply { code, data })
}

/// The position of the first space in `s` at or after `from`; the length
/// of `s` if there is none.
pub open spec fn find_sep(s: Seq<char>, from: int) -> int
    decreases s.len() - from,
    when 0 <= from <= s.len()
{
    if from >= s.len() {
        s.len() as int
    } else if s[from] == ' ' {
        from
    } else {
        find_sep(s, from + 1)
    }
}

/// `find_sep` stays between its starting point and the end of the string.
pub proof fn lemma_find_sep_bounds(s: Seq<char>, from: int)
    requires
        0 <= from <= s.len(),
    ensures
        from <= find_sep(s, from) <= s.len(),
    decreases s.len() - from,
{
    if from < s.len() && s[from] != ' ' {
        lemma_find_sep_bounds(s, from + 1);
    }
}

/// How many pieces splitting `s` on spaces yields from index `from` on:
/// one more than the number of spaces.
pub open spec fn split_count(s: Seq<char>, from: int) -> int
    decreases s.len() - from + 1,
    when 0 <= from <= s.len()
    via split_count_decreases
{
    let j = find_sep(s, from);
    if j == s.len() {
        1
    } else {
        1 + split_count(s, j + 1)
    }
}

#[via_fn]
proof fn split_count_decreases(s: Seq<char>, from: int) {
    lemma_find_sep_bounds(s, from);
}

/// Splitting always yields at least one piece.
pub proof fn lemma_split_count_pos(s: Seq<char>, from: int)
    requires
        0 <= from <= s.len(),
    ensures
        split_count(s, from) >= 1,
    decreases s.len() - from + 1,
{
    lemma_find_sep_bounds(s, from);
    let j = find_sep(s, from);
    if j != s.len() {
        lemma_split_count_pos(s, j + 1);
    }
}

/// Find the first space at or after `from`, walking the characters.
fn find_space(s: &str, from: usize) -> (r: usize)
    requires
        from <= s@.len(),
    ensures
        r == find_sep(s@, from as int),
        from <= r <= s@.len(),
    decreases s@.len() - from,
{
    let n = s.unicode_len();
    if from >= n {
        n
    } else if s.get_char(from) == ' ' {
        from
    } else {
        find_space(s, from + 1)
    }
}

/// Character-wise string equality.
fn str_eq(a: &str, b: &str) -> (r: bool)
    ensures
        r == (a@ == b@),
{
    let na = a.unicode_len();
    let nb = b.unicode_len();
    if na != nb {
        return false;
    }
    let mut j: usize = 0;
    while j < na
        invariant
            j <= na,
            na == a@.len(),
            na == b@.len(),
            forall|k: int| 0 <= k < j ==> a@[k] == b@[k],
        decreases na - j,
    {
        if s_get(a, j) != s_get(b, j) {
            return false;
        }
        j = j + 1;
    }
    proof {
        assert(a@ =~= b@);
    }
    true
}

/// One character of a string by index.
fn s_get(s: &str, i: usize) -> (c: char)
    requires
        i < s@.len(),
    ensures
        c == s@[i as int],
{
    s.get_char(i)
}

/// Check an AUTH reply and extract the session id. The reply must have
/// code 200 and a payload of exactly three space-separated fields whose
/// second and third are `LOGIN` and `ACCEPTED` plus the line break; the
/// first field is the session id.
pub fn validate_auth_command(reply: &ServerReply) -> (r: Result<String, AnidbError>)
    ensures
        reply.code != 200 ==> (r matches Err(AnidbError::ErrorCode(code, m)) && code
            == reply.code && m@ == reply.data@),
        reply.code == 200 && split_count(reply.data@, 0) != 3 ==> (r matches Err(
            AnidbError::Error(m),
        ) && m@ == "Invalid AUTH reply: "@ + reply.data@ + " expceted 3 args"@),
        ({
            let d = reply.data@;
            let j1 = find_sep(d, 0);
            let j2 = find_sep(d, j1 + 1);
            let p1 = d.subrange(j1 + 1, j2);
            let p2 = d.subrange(j2 + 1, d.len() as int);
            &&& (reply.code == 200 && split_count(d, 0) == 3 && !(p1 == "LOGIN"@ && p2
                == "ACCEPTED\n"@) ==> (r matches Err(AnidbError::Error(m)) && m@
                == "Invalid AUTH reply: "@ + d + " LOGIN ACCEPTED\\n expected"@))
            &&& (reply.code == 200 && split_count(d, 0) == 3 && p1 == "LOGIN"@ && p2
                == "ACCEPTED\n"@ ==> (r matches Ok(sid) && sid@ == d.subrange(0, j1)))
        }),
{
    if reply.code != 200 {
        return Err(AnidbError::ErrorCode(reply.code, reply.data.clone()));
    }
    let s = reply.data.as_str();
    let n = s.unicode_len();
    let ghost d = reply.data@;
    let j1 = find_space(s, 0);
    if j1 == n {
        proof {
            assert(split_count(d, 0) == 1);
        }
        let mut m = String::new();
        m.append("Invalid AUTH reply: ");
        m.append(s);
        m.append(" expceted 3 args");
        return Err(AnidbError::Error(m));
    }
    let j2 = find_space(s, j1 + 1);
    proof {
        assert(split_count(d, 0) == 1 + split_count(d, j1 as int + 1));
    }
    if j2 == n {
        proof {
            assert(split_count(d, j1 as int + 1) == 1);
        }
        let mut m = String::new();
        m.append("Invalid AUTH reply: ");
        m.append(s);
        m.append(" expceted 3 args");
        return Err(AnidbError::Error(m));
    }
    let j3 = find_space(s, j2 + 1);
    proof {
        assert(split_count(d, j1 as int + 1) == 1 + split_count(d, j2 as int + 1));
    }
    if j3 != n {
        proof {
            assert(split_count(d, j2 as int + 1) == 1 + split_count(d, j3 as int + 1));
            lemma_split_count_pos(d, j3 as int + 1);
        }
        let mut m = String::new();
        m.append("Invalid AUTH reply: ");
        m.append(s);
        m.append(" expceted 3 args");
        return Err(AnidbError::Error(m));
    }
    proof {
        assert(split_count(d, j2 as int + 1) == 1);
        assert(split_count(d, 0) == 3);
    }
    let p1 = s.substring_char(j1 + 1, j2);
    let p2 = s.substring_char(j2 + 1, n);
    if !str_eq(p1, "LOGIN") || !str_eq(p2, "ACCEPTED\n") {
        let mut m = String::new();
        m.append("Invalid AUTH reply: ");
        m.append(s);
        m.append(" LOGIN ACCEPTED\\n expected");
        return Err(AnidbError::Error(m));
    }
    let sid = s.substring_char(0, j1);
    Ok(sid.to_owned())
}

/// The LOGOUT request for a session.
pub fn format_logout_string(session_id: &str) -> (r: String)
    ensures
        r@ == "LOGOUT s="@ + session_id@,
{
    let mut s = String::new();
    s.append("LOGOUT s=");
    s.append(session_id);
    s
}

/// The AUTH request for a user.
pub fn format_login_string(username: &str, password: &str) -> (r: String)
    ensures
        r@ == "AUTH user="@ + username@ + "&pass="@ + password@
            + "&protover=3&client=anidbrs&clientver=1"@,
{
    let mut s = String::new();
    s.append("AUTH user=");
    s.append(username);
    s.append("&pass=");
    s.append(password);
    s.append("&protover=3&client=anidbrs&clientver=1");
    s
}

} // verus!
