//! Field validation: name and password lengths, and the email grammar.
//!
//! All length constraints are byte lengths of the UTF-8 encoding, and the
//! email grammar is stated over the UTF-8 bytes of the address.

use vstd::prelude::*;

use crate::error::ServerError;
use crate::i18n;
use crate::protocol::Language;
use crate::protocol::{
    ACCOUNT_NAME_MAX_LENGTH, ACCOUNT_NAME_MIN_LENGTH, DISPLAY_NAME_MAX_LENGTH,
    DISPLAY_NAME_MIN_LENGTH, PASSWORD_MIN_LENGTH,
};

verus! {

/// The length in bytes of the UTF-8 encoding of a string.
pub open spec fn byte_len(s: Seq<char>) -> nat {
    vstd::utf8::encode_utf8(s).len()
}

/// Whether a password is long enough.
pub open spec fn password_ok(p: Seq<char>) -> bool {
    byte_len(p) >= PASSWORD_MIN_LENGTH
}

/// Whether an account name's length is within bounds.
pub open spec fn account_name_ok(n: Seq<char>) -> bool {
    ACCOUNT_NAME_MIN_LENGTH <= byte_len(n) <= ACCOUNT_NAME_MAX_LENGTH
}

/// Whether a display name's length is within bounds.
pub open spec fn display_name_ok(n: Seq<char>) -> bool {
    DISPLAY_NAME_MIN_LENGTH <= byte_len(n) <= DISPLAY_NAME_MAX_LENGTH
}

/// Accepts exactly the passwords of at least the minimum length.
pub fn validate_password(password: &String, language: Language) -> (r: Result<(), ServerError>)
    ensures
        r is Ok <==> password_ok(password@),
        r matches Err(e) ==> e.0@ == i18n::invalid_password_text(language),
{
    if password.as_str().as_bytes().len() < PASSWORD_MIN_LENGTH {
        return Err(i18n::invalid_password(language));
    }
    Ok(())
}

/// Accepts exactly the account names whose byte length is within bounds.
pub fn validate_account_name(account_name: &String, language: Language) -> (r: Result<
    (),
    ServerError,
>)
    ensures
        r is Ok <==> account_name_ok(account_name@),
        r matches Err(e) ==> e.0@ == i18n::invalid_account_name_text(language),
{
    let len: usize = account_name.as_str().as_bytes().len();
    if len < ACCOUNT_NAME_MIN_LENGTH || len > ACCOUNT_NAME_MAX_LENGTH {
        return Err(i18n::invalid_account_name(language));
    }
    Ok(())
}

/// Accepts exactly the display names whose byte length is within bounds.
pub fn validate_display_name(display_name: &String, language: Language) -> (r: Result<
    (),
    ServerError,
>)
    ensures
        r is Ok <==> display_name_ok(display_name@),
        r matches Err(e) ==> e.0@ == i18n::invalid_display_name_text(language),
{
    let len: usize = display_name.as_str().as_bytes().len();
    if len < DISPLAY_NAME_MIN_LENGTH || len > DISPLAY_NAME_MAX_LENGTH {
        return Err(i18n::invalid_display_name(language));
    }
    Ok(())
}

/// Whether a byte may appear in the local part of an email address:
/// ASCII letters and digits and the punctuation the grammar permits.
pub open spec fn is_local_byte(b: u8) -> bool {
    is_alnum_byte(b) || b == 46u8  // '.'
     || b == 33u8  // '!'
     || b == 35u8  // '#'
     || b == 36u8  // '$'
     || b == 37u8  // '%'
     || b == 38u8  // '&'
     || b == 39u8  // '\''
     || b == 42u8  // '*'
     || b == 43u8  // '+'
     || b == 47u8  // '/'
     || b == 61u8  // '='
     || b == 63u8  // '?'
     || b == 94u8  // '^'
     || b == 95u8  // '_'
     || b == 96u8  // '`'
     || b == 123u8  // '{'
     || b == 124u8  // '|'
     || b == 125u8  // '}'
     || b == 126u8  // '~'
     || b == 45u8  // '-'

}

/// Whether a byte is an ASCII letter or digit.
pub open spec fn is_alnum_byte(b: u8) -> bool {
    (48u8 <= b <= 57u8) || (65u8 <= b <= 90u8) || (97u8 <= b <= 122u8)
}

/// Whether a byte sequence is a well-formed domain label: one to 63 bytes,
/// alphanumeric at both ends, alphanumeric or `'-'` in between.
pub open spec fn valid_label(s: Seq<u8>) -> bool {
    &&& 1 <= s.len() <= 63
    &&& is_alnum_byte(s[0])
    &&& is_alnum_byte(s[s.len() - 1])
    &&& forall|i: int| 0 <= i < s.len() ==> is_alnum_byte(#[trigger] s[i]) || s[i] == 45u8
}

/// Whether a byte sequence is a well-formed domain: labels separated by
/// `'.'`, each label well-formed.
pub open spec fn valid_domain(s: Seq<u8>) -> bool
    decreases s.len(),
{
    let i = first_index_of(s, 46u8);
    if s.contains(46u8) && 0 <= i < s.len() {
        valid_label(s.subrange(0, i)) && valid_domain(s.subrange(i + 1, s.len() as int))
    } else {
        valid_label(s)
    }
}

/// The index of the first occurrence of a byte known to be present.
pub open spec fn first_index_of(s: Seq<u8>, b: u8) -> int {
    choose|i: int| 0 <= i < s.len() && s[i] == b && forall|j: int| 0 <= j < i ==> s[j] != b
}

/// Whether a byte sequence is a well-formed local part: nonempty, made of
/// permitted bytes only.
pub open spec fn valid_local(s: Seq<u8>) -> bool {
    s.len() >= 1 && forall|i: int| 0 <= i < s.len() ==> is_local_byte(#[trigger] s[i])
}

/// Whether a byte sequence is a well-formed email address: at most 254
/// bytes, split by a `'@'` into a local part and a domain.
pub open spec fn valid_email(s: Seq<u8>) -> bool {
    &&& s.len() <= 254
    &&& exists|i: int|
        0 <= i < s.len() && s[i] == 64u8 && valid_local(s.subrange(0, i)) && valid_domain(
            s.subrange(i + 1, s.len() as int),
        )
}

/// The UTF-8 bytes of a string value.
pub open spec fn bytes_of(s: Seq<char>) -> Seq<u8> {
    vstd::utf8::encode_utf8(s)
}

/// Accepts exactly the well-formed email addresses.
pub fn is_valid_email(email: &String) -> (r: bool)
    ensures
        r == valid_email(bytes_of(email@)),
{
    let bytes = email.as_str().as_bytes();
    if bytes.len() > 254 {
        return false;
    }
    // Find the first '@'; everything before it must be a valid local part,
    // everything after it a valid domain.  Since neither part may contain
    // '@', a well-formed address splits only at its first '@'.
    let n: usize = bytes.len();
    let mut at: usize = 0;
    let mut found: bool = false;
    while at < n && !found
        invariant
            n == bytes@.len(),
            0 <= at <= n,
            found ==> at < n && bytes@[at as int] == 64u8,
            forall|j: int| 0 <= j < at ==> bytes@[j] != 64u8,
        decreases n - at, (if found { 0int } else { 1int }),
    {
        if bytes[at] == 64 {
            found = true;
        } else {
            at += 1;
        }
    }
    if !found {
        assert(!valid_email(bytes_of(email@)));
        return false;
    }
    let local_ok = check_local(bytes, 0, at);
    if !local_ok {
        proof {
            lemma_split_unique(bytes@, at as int);
        }
        return false;
    }
    let domain_ok = check_domain(bytes, at + 1, n);
    proof {
        lemma_split_unique(bytes@, at as int);
        if domain_ok {
            assert(valid_email(bytes_of(email@)));
        }
    }
    domain_ok
}

/// If the bytes before `at` hold no `'@'` and `at` holds one, then the
/// address is well-formed exactly when it splits at `at`.
proof fn lemma_split_unique(s: Seq<u8>, at: int)
    requires
        0 <= at < s.len(),
        s[at] == 64u8,
        forall|j: int| 0 <= j < at ==> s[j] != 64u8,
        s.len() <= 254,
    ensures
        valid_email(s) <==> (valid_local(s.subrange(0, at)) && valid_domain(
            s.subrange(at + 1, s.len() as int),
        )),
{
    if valid_email(s) {
        let i = choose|i: int|
            0 <= i < s.len() && s[i] == 64u8 && valid_local(s.subrange(0, i)) && valid_domain(
                s.subrange(i + 1, s.len() as int),
            );
        if i < at {
            assert(s[i] != 64u8);
        }
        if i > at {
            // the local part would contain the '@' at `at`
            assert(s.subrange(0, i)[at] == 64u8);
            assert(!is_local_byte(64u8));
        }
        assert(i == at);
    }
}

/// Checks that every byte in `[from, to)` may appear in a local part and
/// that the range is nonempty.
fn check_local(bytes: &[u8], from: usize, to: usize) -> (r: bool)
    requires
        from <= to <= bytes@.len(),
    ensures
        r == valid_local(bytes@.subrange(from as int, to as int)),
{
    if from == to {
        return false;
    }
    let mut i: usize = from;
    while i < to
        invariant
            from <= i <= to <= bytes@.len(),
            forall|j: int| from <= j < i ==> is_local_byte(#[trigger] bytes@[j]),
        decreases to - i,
    {
        if !is_local_byte_exec(bytes[i]) {
            assert(!valid_local(bytes@.subrange(from as int, to as int))) by {
                assert(bytes@.subrange(from as int, to as int)[i - from] == bytes@[i as int]);
            }
            return false;
        }
        i += 1;
    }
    assert forall|j: int|
        0 <= j < to - from implies is_local_byte(
        #[trigger] bytes@.subrange(from as int, to as int)[j],
    ) by {
        assert(bytes@.subrange(from as int, to as int)[j] == bytes@[from + j]);
    }
    true
}

/// Executable test for [`is_local_byte`].
fn is_local_byte_exec(b: u8) -> (r: bool)
    ensures
        r == is_local_byte(b),
{
    is_alnum_byte_exec(b) || b == 46 || b == 33 || (35 <= b && b <= 39) || b == 42 || b == 43
        || b == 47 || b == 61 || b == 63 || (94 <= b && b <= 96) || (123 <= b && b <= 126) || b
        == 45
}

/// Executable test for [`is_alnum_byte`].
fn is_alnum_byte_exec(b: u8) -> (r: bool)
    ensures
        r == is_alnum_byte(b),
{
    (48 <= b && b <= 57) || (65 <= b && b <= 90) || (97 <= b && b <= 122)
}

/// Checks that the bytes in `[from, to)` form a well-formed domain.
fn check_domain(bytes: &[u8], from: usize, to: usize) -> (r: bool)
    requires
        from <= to <= bytes@.len(),
    ensures
        r == valid_domain(bytes@.subrange(from as int, to as int)),
    decreases to - from,
{
    // find the first '.' in the range
    let n: usize = to;
    let mut dot: usize = from;
    let mut found: bool = false;
    while dot < n && !found
        invariant
            from <= dot <= n,
            n == to <= bytes@.len(),
            found ==> dot < n && bytes@[dot as int] == 46u8,
            forall|j: int| from <= j < dot ==> bytes@[j] != 46u8,
        decreases n - dot, (if found { 0int } else { 1int }),
    {
        if bytes[dot] == 46 {
            found = true;
        } else {
            dot += 1;
        }
    }
    let ghost range = bytes@.subrange(from as int, to as int);
    if found {
        proof {
            assert(range[dot - from] == 46u8);
            assert(range.contains(46u8));
            lemma_first_dot(range, dot - from);
            assert(range.subrange(0, dot - from) =~= bytes@.subrange(from as int, dot as int));
            assert(range.subrange(dot - from + 1, range.len() as int) =~= bytes@.subrange(
                dot + 1,
                to as int,
            ));
        }
        let label_ok = check_label(bytes, from, dot);
        if !label_ok {
            return false;
        }
        check_domain(bytes, dot + 1, to)
    } else {
        proof {
            if range.contains(46u8) {
                let w = choose|w: int| 0 <= w < range.len() && range[w] == 46u8;
                assert(bytes@[from + w] == 46u8);
            }
        }
        check_label(bytes, from, to)
    }
}

/// In a range whose prefix holds no `'.'`, the first `'.'` is the split
/// point [`first_index_of`] chooses.
proof fn lemma_first_dot(s: Seq<u8>, d: int)
    requires
        0 <= d < s.len(),
        s[d] == 46u8,
        forall|j: int| 0 <= j < d ==> s[j] != 46u8,
    ensures
        first_index_of(s, 46u8) == d,
{
    assert(0 <= d < s.len() && s[d] == 46u8 && forall|j: int| 0 <= j < d ==> s[j] != 46u8);
    let i = first_index_of(s, 46u8);
    assert(0 <= i < s.len() && s[i] == 46u8 && forall|j: int| 0 <= j < i ==> s[j] != 46u8);
    if i < d {
        assert(s[i] != 46u8);
    }
    if d < i {
        assert(s[d] != 46u8);
    }
}

/// Checks that the bytes in `[from, to)` form a well-formed domain label.
fn check_label(bytes: &[u8], from: usize, to: usize) -> (r: bool)
    requires
        from <= to <= bytes@.len(),
    ensures
        r == valid_label(bytes@.subrange(from as int, to as int)),
{
    let ghost range = bytes@.subrange(from as int, to as int);
    let len: usize = to - from;
    if len < 1 || len > 63 {
        return false;
    }
    if !is_alnum_byte_exec(bytes[from]) {
        assert(range[0] == bytes@[from as int]);
        return false;
    }
    if !is_alnum_byte_exec(bytes[to - 1]) {
        assert(range[range.len() - 1] == bytes@[to - 1]);
        return false;
    }
    let mut i: usize = from;
    while i < to
        invariant
            from <= i <= to <= bytes@.len(),
            range == bytes@.subrange(from as int, to as int),
            1 <= to - from <= 63,
            forall|j: int| from <= j < i ==> is_alnum_byte(#[trigger] bytes@[j]) || bytes@[j] == 45u8,
        decreases to - i,
    {
        if !is_alnum_byte_exec(bytes[i]) && bytes[i] != 45 {
            assert(!valid_label(range)) by {
                assert(range[i - from] == bytes@[i as int]);
            }
            return false;
        }
        i += 1;
    }
    assert(valid_label(range)) by {
        assert(range[0] == bytes@[from as int]);
        assert(range[range.len() - 1] == bytes@[to - 1]);
        assert forall|j: int| 0 <= j < range.len() implies is_alnum_byte(#[trigger] range[j])
            || range[j] == 45u8 by {
            assert(range[j] == bytes@[from + j]);
        }
    }
    true
}

} // verus!
