//! The bearer token that the daemon and its clients share, as it stands in a
//! file.

use vstd::prelude::*;
use vstd::string::*;

use crate::text;

verus! {

/// The token in the contents of a file; a blank file has none.
pub open spec fn token_of(contents: Seq<char>) -> Option<Seq<char>> {
    let t = text::trimmed(contents);
    if t.len() == 0 {
        None
    } else {
        Some(t)
    }
}

/// The token in the contents of a file.
pub fn token_in(contents: &str) -> (r: Option<String>)
    ensures
        text::opt_text(r) == token_of(contents@),
{
    let t = text::trim(contents);
    if t.unicode_len() == 0 {
        None
    } else {
        Some(t.to_owned())
    }
}

/// The lowercase hexadecimal digit of a number below sixteen.
pub open spec fn hex_digit(n: int) -> char {
    if n < 10 {
        ('0' as int + n) as char
    } else {
        ('a' as int + (n - 10)) as char
    }
}

/// Bytes in hexadecimal, two digits each.
pub open spec fn hex(bytes: Seq<u8>) -> Seq<char>
    decreases bytes.len(),
{
    if bytes.len() == 0 {
        seq![]
    } else {
        hex(bytes.drop_last()).push(hex_digit(bytes.last() as int / 16)).push(
            hex_digit(bytes.last() as int % 16),
        )
    }
}

/// The lowercase hexadecimal digit of a number below sixteen.
fn digit(n: u8) -> (c: char)
    requires
        n < 16,
    ensures
        c == hex_digit(n as int),
{
    if n < 10 {
        (48u8 + n) as char
    } else {
        (97u8 + (n - 10)) as char
    }
}

/// A token made of bytes, in hexadecimal.
pub fn hex_token(bytes: &Vec<u8>) -> (out: String)
    ensures
        out@ == hex(bytes@),
{
    let mut out = String::new();
    let mut i: usize = 0;
    assert(bytes@.take(0) =~= seq![]);
    while i < bytes.len()
        invariant
            i <= bytes.len(),
            out@ == hex(bytes@.take(i as int)),
        decreases bytes.len() - i,
    {
        let b: u8 = bytes[i];
        proof {
            assert(bytes@.take(i + 1).drop_last() =~= bytes@.take(i as int));
            assert(bytes@.take(i + 1).last() == b);
        }
        out.push(digit(b / 16));
        out.push(digit(b % 16));
        i += 1;
    }
    assert(bytes@.take(i as int) =~= bytes@);
    out
}

/// A token has two characters to a byte, digits and the letters `a` to `f`.
pub proof fn law_hex_token_shape(bytes: Seq<u8>)
    ensures
        hex(bytes).len() == 2 * bytes.len(),
        forall|i: int|
            0 <= i < hex(bytes).len() ==> ('0' <= (#[trigger] hex(bytes)[i]) <= '9') || ('a' <= hex(
                bytes,
            )[i] <= 'f'),
    decreases bytes.len(),
{
    if bytes.len() > 0 {
        law_hex_token_shape(bytes.drop_last());
        let before = hex(bytes.drop_last());
        assert forall|i: int| 0 <= i < hex(bytes).len() implies ('0' <= (#[trigger] hex(bytes)[i])
            <= '9') || ('a' <= hex(bytes)[i] <= 'f') by {
            if i < before.len() {
                assert(hex(bytes)[i] == before[i]);
            }
        }
    }
}

/// The token that was written is the token that is read.
pub proof fn law_written_token_is_read(bytes: Seq<u8>)
    requires
        bytes.len() > 0,
    ensures
        token_of(hex(bytes)) == Some(hex(bytes)),
{
    law_hex_token_shape(bytes);
    let t = hex(bytes);
    assert(!text::white(t[0]) && !text::white(t[t.len() - 1]));
    text::lemma_trim_nothing(t);
}

/// What is to be done for a file to hold a token.
#[derive(Debug)]
pub enum TokenStep {
    /// It holds this one.
    Use(String),
    /// It is to be created with a new one.
    Create,
    /// It is blank, and is to be replaced by one with a new one.
    Replace,
}

/// What is to be done for a file to hold a token, given what it holds, if it is
/// there: a token is kept, and where there is none, or none in the file, one is
/// made.
pub fn token_step(contents: Option<&str>) -> (r: TokenStep)
    ensures
        match contents {
            Some(c) => match token_of(c@) {
                Some(t) => r matches TokenStep::Use(held) && held@ == t,
                None => r is Replace,
            },
            None => r is Create,
        },
{
    match contents {
        Some(c) => match token_in(c) {
            Some(t) => TokenStep::Use(t),
            None => TokenStep::Replace,
        },
        None => TokenStep::Create,
    }
}

/// What is said where there is no token.
pub open spec fn no_token(path: Seq<char>) -> Seq<char> {
    "no panopt token at "@ + path + " - start the daemon (`panopt up`) so it generates one"@
}

/// What is said where there is no token.
pub fn no_token_message(path: &str) -> (r: String)
    ensures
        r@ == no_token(path@),
{
    let mut out = "no panopt token at ".to_owned();
    out.append(path);
    out.append(" - start the daemon (`panopt up`) so it generates one");
    out
}

/// The token in the file at a path, given what the file holds, if it is there.
/// Where there is none, the error says how to get one.
pub fn read_token(path: &str, contents: Option<&str>) -> (r: Result<String, String>)
    ensures
        match contents {
            Some(c) => match token_of(c@) {
                Some(t) => r is Ok && r->Ok_0@ == t,
                None => r is Err && r->Err_0@ == no_token(path@),
            },
            None => r is Err && r->Err_0@ == no_token(path@),
        },
{
    match contents {
        Some(c) => match token_in(c) {
            Some(t) => Ok(t),
            None => Err(no_token_message(path)),
        },
        None => Err(no_token_message(path)),
    }
}

} // verus!
