//! Validation of user-supplied configuration values.
//!
//! The command line hands these validators raw strings; they parse and
//! range-check them, and return the exact messages the user sees.

use vstd::prelude::*;

verus! {

/// Whether a character is a decimal digit.
pub open spec fn is_dec_digit(ch: char) -> bool {
    '0' <= ch && ch <= '9'
}

/// The value of a decimal digit character.
pub open spec fn digit_val(ch: char) -> nat
    recommends
        is_dec_digit(ch),
{
    (ch as u32 - '0' as u32) as nat
}

/// Whether a string is a nonempty run of decimal digits.
pub open spec fn is_dec_string(s: Seq<char>) -> bool {
    s.len() > 0 && forall|i: int| 0 <= i < s.len() ==> is_dec_digit(#[trigger] s[i])
}

/// The value of a run of decimal digits, most significant digit first.
pub open spec fn parsed_dec(s: Seq<char>) -> nat
    decreases s.len(),
{
    if s.len() == 0 {
        0
    } else {
        parsed_dec(s.drop_last()) * 10 + digit_val(s.last())
    }
}

/// The value of a digit string is at least the value of any of its
/// prefixes.
proof fn lemma_parsed_dec_prefix(s: Seq<char>, i: int)
    requires
        0 <= i <= s.len(),
    ensures
        parsed_dec(s.take(i)) <= parsed_dec(s),
    decreases s.len(),
{
    if i == s.len() {
        assert(s.take(i) =~= s);
    } else {
        assert(s.drop_last().take(i) =~= s.take(i));
        lemma_parsed_dec_prefix(s.drop_last(), i);
    }
}

/// Parses a `u8` from a run of decimal digits, with the usual messages for
/// an empty string, a stray character, and a value over 255.
fn parse_u8(s: &str) -> (r: Result<u8, String>)
    ensures
        match r {
            Ok(v) => is_dec_string(s@) && v == parsed_dec(s@),
            Err(m) => {
                ||| (s@.len() == 0 && m@ == "cannot parse integer from empty string"@)
                ||| (s@.len() > 0 && !is_dec_string(s@) && m@ == "invalid digit found in string"@)
                ||| (is_dec_string(s@) && parsed_dec(s@) > 255 && m@
                    == "number too large to fit in target type"@)
            },
        },
{
    let n = s.unicode_len();
    if n == 0 {
        return Err("cannot parse integer from empty string".to_owned());
    }
    let mut k: usize = 0;
    while k < n
        invariant
            k <= n == s@.len(),
            forall|i: int| 0 <= i < k ==> is_dec_digit(#[trigger] s@[i]),
        decreases n - k,
    {
        let ch = s.get_char(k);
        if !(ch >= '0' && ch <= '9') {
            return Err("invalid digit found in string".to_owned());
        }
        k = k + 1;
    }
    let mut acc: u32 = 0;
    let mut i: usize = 0;
    while i < n
        invariant
            i <= n == s@.len(),
            is_dec_string(s@),
            acc == parsed_dec(s@.take(i as int)),
            acc <= 255,
        decreases n - i,
    {
        let ch = s.get_char(i);
        let d: u32 = (ch as u32) - 48;
        proof {
            assert(s@.take(i as int + 1).drop_last() =~= s@.take(i as int));
        }
        acc = acc * 10 + d;
        i = i + 1;
        if acc > 255 {
            proof {
                lemma_parsed_dec_prefix(s@, i as int);
            }
            return Err("number too large to fit in target type".to_owned());
        }
    }
    proof {
        assert(s@.take(n as int) =~= s@);
    }
    Ok(acc as u8)
}

/// Validates that a password is of the correct length: at least 8 and at
/// most 255 characters.
pub fn validate_password(password: &str) -> (r: Result<String, String>)
    ensures
        match r {
            Ok(p) => p@ == password@ && 8 <= password@.len() <= 255,
            Err(m) => {
                ||| (password@.len() < 8 && m@ == "Password must be at least 8 characters in length"@)
                ||| (password@.len() > 255 && m@
                    == "Password must be at most 255 characters in length"@)
            },
        },
{
    let n = password.unicode_len();
    if n < 8 {
        Err("Password must be at least 8 characters in length".to_owned())
    } else if n > 255 {
        Err("Password must be at most 255 characters in length".to_owned())
    } else {
        Ok(password.to_owned())
    }
}

/// Validates that the provided chunk size magnitude is within the accepted
/// range: chunk sizes run from 2^10 to 2^30 bytes.
pub fn validate_chunk_size(chunk_size: &str) -> (r: Result<u8, String>)
    ensures
        match r {
            Ok(v) => is_dec_string(chunk_size@) && v == parsed_dec(chunk_size@) && 10 <= v <= 30,
            Err(m) => {
                ||| (chunk_size@.len() == 0 && m@ == "cannot parse integer from empty string"@)
                ||| (chunk_size@.len() > 0 && !is_dec_string(chunk_size@) && m@
                    == "invalid digit found in string"@)
                ||| (is_dec_string(chunk_size@) && parsed_dec(chunk_size@) > 255 && m@
                    == "number too large to fit in target type"@)
                ||| (is_dec_string(chunk_size@) && parsed_dec(chunk_size@) < 10 && m@
                    == "Chunk size order of magnitude must be at least 10"@)
                ||| (is_dec_string(chunk_size@) && 30 < parsed_dec(chunk_size@) <= 255 && m@
                    == "Chunk size order of magnitude must be at most 30"@)
            },
        },
{
    let size = match parse_u8(chunk_size) {
        Ok(v) => v,
        Err(m) => {
            return Err(m);
        },
    };
    if size < 10 {
        Err("Chunk size order of magnitude must be at least 10".to_owned())
    } else if size > 30 {
        Err("Chunk size order of magnitude must be at most 30".to_owned())
    } else {
        Ok(size)
    }
}

/// Validates that the provided pool size is within the accepted range of
/// 1 to 64 workers.
pub fn validate_pool_size(pool_size: &str) -> (r: Result<u8, String>)
    ensures
        match r {
            Ok(v) => is_dec_string(pool_size@) && v == parsed_dec(pool_size@) && 1 <= v <= 64,
            Err(m) => {
                ||| (pool_size@.len() == 0 && m@ == "cannot parse integer from empty string"@)
                ||| (pool_size@.len() > 0 && !is_dec_string(pool_size@) && m@
                    == "invalid digit found in string"@)
                ||| (is_dec_string(pool_size@) && parsed_dec(pool_size@) > 255 && m@
                    == "number too large to fit in target type"@)
                ||| (is_dec_string(pool_size@) && parsed_dec(pool_size@) < 1 && m@
                    == "Pool size must be at least 1"@)
                ||| (is_dec_string(pool_size@) && 64 < parsed_dec(pool_size@) <= 255 && m@
                    == "Pool size must be at most 64"@)
            },
        },
{
    let size = match parse_u8(pool_size) {
        Ok(v) => v,
        Err(m) => {
            return Err(m);
        },
    };
    if size < 1 {
        Err("Pool size must be at least 1".to_owned())
    } else if size > 64 {
        Err("Pool size must be at most 64".to_owned())
    } else {
        Ok(size)
    }
}

} // verus!
