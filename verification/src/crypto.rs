//! Deterministic password derivation and formatting.
//!
//! A password is derived from a master salt and a feature identifier by one of
//! five key-derivation functions, then rendered as a typeable password of a
//! requested length.

use vstd::prelude::*;

verus! {

/// Key-derivation algorithm used for one catalog entry.
#[derive(Debug, Clone, Copy, PartialEq, Eq, Structural, Default)]
pub enum Algorithm {
    #[default]
    HmacSha256,
    Argon2i,
    Argon2id,
    Pbkdf2,
    Scrypt,
}

pub open spec fn spec_algorithm_name(a: Algorithm) -> Seq<char> {
    match a {
        Algorithm::HmacSha256 => "HMAC-SHA256"@,
        Algorithm::Argon2i => "Argon2i"@,
        Algorithm::Argon2id => "Argon2id"@,
        Algorithm::Pbkdf2 => "PBKDF2"@,
        Algorithm::Scrypt => "Scrypt"@,
    }
}

impl Algorithm {
    pub fn name(&self) -> (r: &'static str)
        ensures
            r@ == spec_algorithm_name(*self),
    {
        match self {
            Algorithm::HmacSha256 => "HMAC-SHA256",
            Algorithm::Argon2i => "Argon2i",
            Algorithm::Argon2id => "Argon2id",
            Algorithm::Pbkdf2 => "PBKDF2",
            Algorithm::Scrypt => "Scrypt",
        }
    }

    /// Every algorithm, in the order shown to a user choosing one.
    pub fn all() -> (r: Vec<Algorithm>)
        ensures
            r@ == seq![
                Algorithm::HmacSha256,
                Algorithm::Argon2i,
                Algorithm::Argon2id,
                Algorithm::Pbkdf2,
                Algorithm::Scrypt,
            ],
    {
        let mut v: Vec<Algorithm> = Vec::new();
        v.push(Algorithm::HmacSha256);
        v.push(Algorithm::Argon2i);
        v.push(Algorithm::Argon2id);
        v.push(Algorithm::Pbkdf2);
        v.push(Algorithm::Scrypt);
        proof {
            assert(v@ =~= seq![
                Algorithm::HmacSha256,
                Algorithm::Argon2i,
                Algorithm::Argon2id,
                Algorithm::Pbkdf2,
                Algorithm::Scrypt,
            ]);
        }
        v
    }
}

// What the outside key-derivation functions return. Each is a pure function of
// its arguments; the trusted wrappers below are the only places that say
// anything about these names.

pub uninterp spec fn hmac_sha256_of(key: Seq<char>, message: Seq<char>) -> Seq<u8>;

pub uninterp spec fn argon2i_of(secret: Seq<char>, identifier: Seq<char>) -> Seq<u8>;

pub uninterp spec fn argon2id_of(secret: Seq<char>, identifier: Seq<char>) -> Seq<u8>;

pub uninterp spec fn pbkdf2_sha256_of(password: Seq<char>, salt: Seq<char>, rounds: u32) -> Seq<u8>;

pub uninterp spec fn scrypt_of(secret: Seq<char>, identifier: Seq<char>) -> Seq<u8>;

pub uninterp spec fn base64_of(data: Seq<u8>) -> Seq<char>;

// Character classes of the formatted password.

pub open spec fn is_upper(c: char) -> bool {
    65 <= c as u32 <= 90
}

pub open spec fn is_lower(c: char) -> bool {
    97 <= c as u32 <= 122
}

pub open spec fn is_digit(c: char) -> bool {
    48 <= c as u32 <= 57
}

pub open spec fn is_special(c: char) -> bool {
    c == '!' || c == '@' || c == '#' || c == '$' || c == '%' || c == '^' || c == '&' || c == '*'
}

/// Characters of the base64 stream that contribute an output character.
pub open spec fn is_mappable(c: char) -> bool {
    is_upper(c) || is_lower(c) || is_digit(c) || c == '+' || c == '/' || c == '='
}

pub open spec fn is_base64_char(c: char) -> bool {
    is_upper(c) || is_lower(c) || is_digit(c) || c == '+' || c == '/' || c == '='
}

pub open spec fn spec_specials(i: int) -> char
    recommends
        0 <= i < 8,
{
    if i == 0 {
        '!'
    } else if i == 1 {
        '@'
    } else if i == 2 {
        '#'
    } else if i == 3 {
        '$'
    } else if i == 4 {
        '%'
    } else if i == 5 {
        '^'
    } else if i == 6 {
        '&'
    } else {
        '*'
    }
}

pub open spec fn spec_map_special(c: char, idx: nat) -> char {
    if c == '+' {
        spec_specials((idx % 8) as int)
    } else if c == '/' {
        spec_specials(((idx + 1) % 8) as int)
    } else if c == '=' {
        spec_specials(((idx + 2) % 8) as int)
    } else {
        '!'
    }
}

/// Requested lengths are clamped into the supported range before formatting.
pub open spec fn spec_clamp_length(length: usize) -> usize {
    if length < 12 {
        12usize
    } else if length > 64 {
        64usize
    } else {
        length
    }
}

/// One scan step: a letter or digit passes through, one of `+ / =` is remapped
/// to a symbol chosen by the count of characters emitted so far, and anything
/// else is dropped.
pub open spec fn emit_one(out: Seq<char>, c: char) -> Seq<char> {
    if is_upper(c) || is_lower(c) || is_digit(c) {
        out.push(c)
    } else if c == '+' || c == '/' || c == '=' {
        out.push(spec_map_special(c, out.len()))
    } else {
        out
    }
}

/// The characters emitted by scanning `raw` left to right, stopping once `cap`
/// characters have been emitted.
pub open spec fn spec_emit(raw: Seq<char>, cap: usize) -> Seq<char>
    decreases raw.len(),
{
    if raw.len() == 0 {
        Seq::<char>::empty()
    } else {
        let prev = spec_emit(raw.drop_last(), cap);
        if prev.len() >= cap {
            prev
        } else {
            emit_one(prev, raw.last())
        }
    }
}

pub open spec fn has_upper_in(s: Seq<char>) -> bool {
    exists|i: int| 0 <= i < s.len() && is_upper(#[trigger] s[i])
}

pub open spec fn has_digit_in(s: Seq<char>) -> bool {
    exists|i: int| 0 <= i < s.len() && is_digit(#[trigger] s[i])
}

pub open spec fn has_special_in(s: Seq<char>) -> bool {
    exists|i: int| 0 <= i < s.len() && is_special(#[trigger] s[i])
}

pub open spec fn spec_to_ascii_upper(c: char) -> char {
    if is_lower(c) {
        ((c as u32 - 32) as u8) as char
    } else {
        c
    }
}

pub open spec fn spec_digit_char(n: int) -> char
    recommends
        0 <= n < 10,
{
    ((48 + n) as u8) as char
}

/// The fix-up pass: if a class is missing, a fixed position is overwritten,
/// in this order and at these positions exactly.
pub open spec fn spec_post(e: Seq<char>) -> Seq<char> {
    let e1 = if !has_upper_in(e) && e.len() > 0 {
        e.update(0, spec_to_ascii_upper(e[0]))
    } else {
        e
    };
    let e2 = if !has_digit_in(e) && e.len() > 1 {
        e1.update(1, spec_digit_char((e.len() % 10) as int))
    } else {
        e1
    };
    if !has_special_in(e) && e.len() > 2 {
        e2.update(2, '!')
    } else {
        e2
    }
}

/// What `PasswordGenerator::format_password` returns.
pub open spec fn spec_format(raw: Seq<char>, length: usize) -> Seq<char> {
    spec_post(spec_emit(raw, spec_clamp_length(length)))
}

pub proof fn lemma_emit_le_cap(raw: Seq<char>, cap: usize)
    ensures
        spec_emit(raw, cap).len() <= cap,
    decreases raw.len(),
{
    if raw.len() > 0 {
        lemma_emit_le_cap(raw.drop_last(), cap);
    }
}

proof fn lemma_emit_step(raw: Seq<char>, cap: usize, i: int)
    requires
        0 <= i < raw.len(),
    ensures
        spec_emit(raw.take(i + 1), cap) == ({
            let prev = spec_emit(raw.take(i), cap);
            if prev.len() >= cap {
                prev
            } else {
                emit_one(prev, raw[i])
            }
        }),
{
    assert(raw.take(i + 1).drop_last() =~= raw.take(i));
    assert(raw.take(i + 1).last() == raw[i]);
}

proof fn lemma_emit_saturated(raw: Seq<char>, cap: usize, i: int)
    requires
        0 <= i <= raw.len(),
        spec_emit(raw.take(i), cap).len() >= cap,
    ensures
        spec_emit(raw.take(i), cap) == spec_emit(raw, cap),
    decreases raw.len() - i,
{
    if i == raw.len() {
        assert(raw.take(i) =~= raw);
    } else {
        lemma_emit_step(raw, cap, i);
        lemma_emit_saturated(raw, cap, i + 1);
    }
}

proof fn lemma_push_classes(s: Seq<char>, c: char)
    ensures
        has_upper_in(s.push(c)) == (has_upper_in(s) || is_upper(c)),
        has_digit_in(s.push(c)) == (has_digit_in(s) || is_digit(c)),
        has_special_in(s.push(c)) == (has_special_in(s) || is_special(c)),
{
    let t = s.push(c);
    assert(t[s.len() as int] == c);
    assert(forall|i: int| 0 <= i < s.len() ==> t[i] == s[i]);
    if has_upper_in(s) {
        let i = choose|i: int| 0 <= i < s.len() && is_upper(#[trigger] s[i]);
        assert(is_upper(t[i]));
    }
    if has_digit_in(s) {
        let i = choose|i: int| 0 <= i < s.len() && is_digit(#[trigger] s[i]);
        assert(is_digit(t[i]));
    }
    if has_special_in(s) {
        let i = choose|i: int| 0 <= i < s.len() && is_special(#[trigger] s[i]);
        assert(is_special(t[i]));
    }
    if has_upper_in(t) && !is_upper(c) {
        let i = choose|i: int| 0 <= i < t.len() && is_upper(#[trigger] t[i]);
        assert(0 <= i < s.len() && is_upper(s[i]));
    }
    if has_digit_in(t) && !is_digit(c) {
        let i = choose|i: int| 0 <= i < t.len() && is_digit(#[trigger] t[i]);
        assert(0 <= i < s.len() && is_digit(s[i]));
    }
    if has_special_in(t) && !is_special(c) {
        let i = choose|i: int| 0 <= i < t.len() && is_special(#[trigger] t[i]);
        assert(0 <= i < s.len() && is_special(s[i]));
    }
}

pub open spec fn upper_fix_applied(e: Seq<char>) -> bool {
    !has_upper_in(e) && e.len() > 0
}

pub open spec fn digit_fix_applied(e: Seq<char>) -> bool {
    !has_digit_in(e) && e.len() > 1
}

pub open spec fn special_fix_applied(e: Seq<char>) -> bool {
    !has_special_in(e) && e.len() > 2
}

pub proof fn lemma_post_len(e: Seq<char>)
    ensures
        spec_post(e).len() == e.len(),
{
}

/// The fixed-up output has a digit exactly when the digit fix wrote one, or
/// an emitted digit survived: the digit at position 2 can be lost to the `!`
/// fix.
pub proof fn lemma_post_digit(e: Seq<char>)
    ensures
        has_digit_in(spec_post(e)) <==> (digit_fix_applied(e) || (exists|i: int|
            0 <= i < e.len() && is_digit(#[trigger] e[i]) && (i != 2 || !special_fix_applied(e)))),
{
    let e1 = if upper_fix_applied(e) {
        e.update(0, spec_to_ascii_upper(e[0]))
    } else {
        e
    };
    let e2 = if digit_fix_applied(e) {
        e1.update(1, spec_digit_char((e.len() % 10) as int))
    } else {
        e1
    };
    let e3 = spec_post(e);
    assert(e3 == if special_fix_applied(e) {
        e2.update(2, '!')
    } else {
        e2
    });
    if digit_fix_applied(e) {
        assert(is_digit(e2[1]));
        assert(e3[1] == e2[1]);
        assert(has_digit_in(e3));
    } else if exists|i: int|
        0 <= i < e.len() && is_digit(#[trigger] e[i]) && (i != 2 || !special_fix_applied(e)) {
        let i = choose|i: int|
            0 <= i < e.len() && is_digit(#[trigger] e[i]) && (i != 2 || !special_fix_applied(e));
        assert(e1[i] == if upper_fix_applied(e) && i == 0 {
            spec_to_ascii_upper(e[0])
        } else {
            e[i]
        });
        assert(is_digit(e1[i]));
        assert(is_digit(e2[i]));
        assert(is_digit(e3[i]));
        assert(has_digit_in(e3));
    }
    if has_digit_in(e3) && !digit_fix_applied(e) {
        let j = choose|j: int| 0 <= j < e3.len() && is_digit(#[trigger] e3[j]);
        assert(!(special_fix_applied(e) && j == 2)) by {
            if special_fix_applied(e) && j == 2 {
                assert(e3[2] == '!');
            }
        }
        assert(e3[j] == e2[j]);
        assert(e2[j] == e1[j]);
        assert(is_digit(e1[j]));
        if upper_fix_applied(e) && j == 0 {
            assert(e1[0] == spec_to_ascii_upper(e[0]));
            assert(is_digit(e[0]));
        } else {
            assert(e1[j] == e[j]);
        }
        assert(exists|i: int|
            0 <= i < e.len() && is_digit(#[trigger] e[i]) && (i != 2 || !special_fix_applied(e)));
    }
}

/// The fixed-up output has a symbol exactly when the `!` fix wrote one, or
/// an emitted symbol survived: the symbol at position 1 can be lost to the
/// digit fix.
pub proof fn lemma_post_special(e: Seq<char>)
    ensures
        has_special_in(spec_post(e)) <==> (special_fix_applied(e) || (exists|i: int|
            0 <= i < e.len() && is_special(#[trigger] e[i]) && (i != 1 || !digit_fix_applied(e)))),
{
    let e1 = if upper_fix_applied(e) {
        e.update(0, spec_to_ascii_upper(e[0]))
    } else {
        e
    };
    let e2 = if digit_fix_applied(e) {
        e1.update(1, spec_digit_char((e.len() % 10) as int))
    } else {
        e1
    };
    let e3 = spec_post(e);
    assert(e3 == if special_fix_applied(e) {
        e2.update(2, '!')
    } else {
        e2
    });
    if special_fix_applied(e) {
        assert(e3[2] == '!');
        assert(has_special_in(e3));
    } else if exists|i: int|
        0 <= i < e.len() && is_special(#[trigger] e[i]) && (i != 1 || !digit_fix_applied(e)) {
        let i = choose|i: int|
            0 <= i < e.len() && is_special(#[trigger] e[i]) && (i != 1 || !digit_fix_applied(e));
        assert(e1[i] == if upper_fix_applied(e) && i == 0 {
            spec_to_ascii_upper(e[0])
        } else {
            e[i]
        });
        assert(is_special(e1[i]));
        assert(is_special(e2[i]));
        assert(is_special(e3[i]));
        assert(has_special_in(e3));
    }
    if has_special_in(e3) && !special_fix_applied(e) {
        let j = choose|j: int| 0 <= j < e3.len() && is_special(#[trigger] e3[j]);
        assert(e3[j] == e2[j]);
        assert(!(digit_fix_applied(e) && j == 1)) by {
            if digit_fix_applied(e) && j == 1 {
                assert(e2[1] == spec_digit_char((e.len() % 10) as int));
                assert(is_digit(e2[1]));
            }
        }
        assert(e2[j] == e1[j]);
        if upper_fix_applied(e) && j == 0 {
            assert(e1[0] == spec_to_ascii_upper(e[0]));
            assert(is_special(e[0]));
        } else {
            assert(e1[j] == e[j]);
        }
        assert(exists|i: int|
            0 <= i < e.len() && is_special(#[trigger] e[i]) && (i != 1 || !digit_fix_applied(e)));
    }
}

/// The fixed-up output has an uppercase letter exactly when the first
/// emitted character was a lowercase letter that the fix raised, or an
/// emitted uppercase letter survived the two overwrites at positions 1 and
/// 2.
pub proof fn lemma_post_upper(e: Seq<char>)
    ensures
        has_upper_in(spec_post(e)) <==> ((upper_fix_applied(e) && is_lower(e[0])) || (exists|i: int|
            0 <= i < e.len() && is_upper(#[trigger] e[i]) && (i != 1 || !digit_fix_applied(e)) && (i
                != 2 || !special_fix_applied(e)))),
{
    let e1 = if upper_fix_applied(e) {
        e.update(0, spec_to_ascii_upper(e[0]))
    } else {
        e
    };
    let e2 = if digit_fix_applied(e) {
        e1.update(1, spec_digit_char((e.len() % 10) as int))
    } else {
        e1
    };
    let e3 = spec_post(e);
    assert(e3 == if special_fix_applied(e) {
        e2.update(2, '!')
    } else {
        e2
    });
    if upper_fix_applied(e) && is_lower(e[0]) {
        assert(is_upper(spec_to_ascii_upper(e[0])));
        assert(e1[0] == spec_to_ascii_upper(e[0]));
        assert(e2[0] == e1[0]);
        assert(e3[0] == e2[0]);
        assert(has_upper_in(e3));
    } else if exists|i: int|
        0 <= i < e.len() && is_upper(#[trigger] e[i]) && (i != 1 || !digit_fix_applied(e)) && (i
            != 2 || !special_fix_applied(e)) {
        let i = choose|i: int|
            0 <= i < e.len() && is_upper(#[trigger] e[i]) && (i != 1 || !digit_fix_applied(e)) && (i
                != 2 || !special_fix_applied(e));
        assert(has_upper_in(e));
        assert(!upper_fix_applied(e));
        assert(e1[i] == e[i]);
        assert(is_upper(e2[i]));
        assert(is_upper(e3[i]));
        assert(has_upper_in(e3));
    }
    if has_upper_in(e3) {
        let j = choose|j: int| 0 <= j < e3.len() && is_upper(#[trigger] e3[j]);
        assert(!(special_fix_applied(e) && j == 2)) by {
            if special_fix_applied(e) && j == 2 {
                assert(e3[2] == '!');
            }
        }
        assert(e3[j] == e2[j]);
        assert(!(digit_fix_applied(e) && j == 1)) by {
            if digit_fix_applied(e) && j == 1 {
                assert(is_digit(e2[1]));
            }
        }
        assert(e2[j] == e1[j]);
        if upper_fix_applied(e) {
            if j == 0 {
                assert(e1[0] == spec_to_ascii_upper(e[0]));
                if is_lower(e[0]) {
                    assert(upper_fix_applied(e) && is_lower(e[0]));
                } else {
                    assert(e1[0] == e[0]);
                    assert(is_upper(e[0]));
                    assert(has_upper_in(e));
                    assert(false);
                }
            } else {
                assert(e1[j] == e[j]);
                assert(is_upper(e[j]));
                assert(has_upper_in(e));
                assert(false);
            }
        } else {
            assert(e1[j] == e[j]);
            assert(is_upper(e[j]));
            assert(exists|i: int|
                0 <= i < e.len() && is_upper(#[trigger] e[i]) && (i != 1 || !digit_fix_applied(e))
                    && (i != 2 || !special_fix_applied(e)));
        }
    }
}

/// The formatted password is exactly the clamped length whenever the raw
/// stream offers at least that many mappable characters.
pub proof fn lemma_format_exact_length(raw: Seq<char>, length: usize)
    requires
        forall|i: int| 0 <= i < raw.len() ==> is_mappable(#[trigger] raw[i]),
        raw.len() >= spec_clamp_length(length),
    ensures
        spec_format(raw, length).len() == spec_clamp_length(length),
{
    lemma_emit_all_mappable(raw, spec_clamp_length(length));
    lemma_post_len(spec_emit(raw, spec_clamp_length(length)));
}

/// Deterministic password generation: derive raw key bytes, base64-encode
/// them, and format the stream into a typeable password.
pub struct PasswordGenerator;

/// The key bytes produced for one `(salt, feature, algorithm)` triple.
pub open spec fn spec_derive(algo: Algorithm, salt: Seq<char>, feature: Seq<char>) -> Seq<u8> {
    match algo {
        Algorithm::HmacSha256 => hmac_sha256_of(salt, feature),
        Algorithm::Argon2i => argon2i_of(salt, feature),
        Algorithm::Argon2id => argon2id_of(salt, feature),
        Algorithm::Pbkdf2 => pbkdf2_sha256_of(feature, salt, 10000),
        Algorithm::Scrypt => scrypt_of(salt, feature),
    }
}

/// The password produced for one `(salt, feature, length, algorithm)` tuple.
/// Every run of the generator returns exactly this value, so generation is
/// deterministic.
pub open spec fn spec_password(
    salt: Seq<char>,
    feature: Seq<char>,
    length: usize,
    algo: Algorithm,
) -> Seq<char> {
    spec_format(base64_of(spec_derive(algo, salt, feature)), length)
}

impl PasswordGenerator {
    /// Relies on hmac's `Hmac::<Sha256>` (HMAC-SHA256): a deterministic
    /// function of key and message with a 32-byte tag; keys of any length are
    /// accepted.
    #[verifier::external_body]
    fn derive_hmac_sha256(salt: &str, feature: &str) -> (r: Vec<u8>)
        ensures
            r@ == hmac_sha256_of(salt@, feature@),
            r@.len() == 32,
    {
        let mut mac = <hmac::Hmac<sha2::Sha256> as hmac::Mac>::new_from_slice(salt.as_bytes())
            .expect("HMAC accepts keys of any length");
        hmac::Mac::update(&mut mac, feature.as_bytes());
        let result = hmac::Mac::finalize(mac);
        result.into_bytes().to_vec()
    }

    /// Relies on argon2's `Argon2::hash_password_into` with the Argon2i
    /// variant, version 0x13, m=65536 KiB, t=2, p=2, 32-byte output: a
    /// deterministic function of password and salt. The salt must be 8 to
    /// 2^32 - 1 bytes and the password at most 2^32 - 1 bytes, or the call
    /// fails.
    #[verifier::external_body]
    fn derive_argon2i(salt: &str, feature: &str) -> (r: Vec<u8>)
        requires
            8 <= vstd::utf8::encode_utf8(salt@).len() <= 0xFFFFFFFF,
            vstd::utf8::encode_utf8(feature@).len() <= 0xFFFFFFFF,
        ensures
            r@ == argon2i_of(salt@, feature@),
            r@.len() == 32,
    {
        let params = argon2::Params::new(65536, 2, 2, None).expect("fixed parameters are valid");
        let ctx = argon2::Argon2::new(argon2::Algorithm::Argon2i, argon2::Version::V0x13, params);
        let mut output = [0u8; 32];
        ctx.hash_password_into(feature.as_bytes(), salt.as_bytes(), &mut output)
            .expect("salt length was checked");
        output.to_vec()
    }

    /// Relies on argon2's `Argon2::hash_password_into` with the Argon2id
    /// variant, version 0x13, m=65536 KiB, t=2, p=2, 32-byte output: a
    /// deterministic function of password and salt. The salt must be 8 to
    /// 2^32 - 1 bytes and the password at most 2^32 - 1 bytes, or the call
    /// fails.
    #[verifier::external_body]
    fn derive_argon2id(salt: &str, feature: &str) -> (r: Vec<u8>)
        requires
            8 <= vstd::utf8::encode_utf8(salt@).len() <= 0xFFFFFFFF,
            vstd::utf8::encode_utf8(feature@).len() <= 0xFFFFFFFF,
        ensures
            r@ == argon2id_of(salt@, feature@),
            r@.len() == 32,
    {
        let params = argon2::Params::new(65536, 2, 2, None).expect("fixed parameters are valid");
        let ctx = argon2::Argon2::new(argon2::Algorithm::Argon2id, argon2::Version::V0x13, params);
        let mut output = [0u8; 32];
        ctx.hash_password_into(feature.as_bytes(), salt.as_bytes(), &mut output)
            .expect("salt length was checked");
        output.to_vec()
    }

    /// Relies on pbkdf2's `pbkdf2_hmac::<Sha256>`: deterministic in password,
    /// salt and round count; fills the 32-byte output buffer.
    #[verifier::external_body]
    pub(crate) fn derive_pbkdf2_sha256(password: &str, salt: &str, rounds: u32) -> (r: Vec<u8>)
        ensures
            r@ == pbkdf2_sha256_of(password@, salt@, rounds),
            r@.len() == 32,
    {
        let mut output = [0u8; 32];
        pbkdf2::pbkdf2_hmac::<sha2::Sha256>(
            password.as_bytes(),
            salt.as_bytes(),
            rounds,
            &mut output,
        );
        output.to_vec()
    }

    /// Relies on scrypt's `scrypt` with log2(N)=15, r=8, p=1, 32-byte output:
    /// a deterministic function of password and salt.
    #[verifier::external_body]
    fn derive_scrypt(salt: &str, feature: &str) -> (r: Vec<u8>)
        ensures
            r@ == scrypt_of(salt@, feature@),
            r@.len() == 32,
    {
        let params = scrypt::Params::new(15, 8, 1, 32).expect("fixed parameters are valid");
        let mut output = [0u8; 32];
        scrypt::scrypt(feature.as_bytes(), salt.as_bytes(), &params, &mut output)
            .expect("output length is valid");
        output.to_vec()
    }

    /// Relies on base64's `STANDARD` engine (RFC 4648 alphabet, padded):
    /// deterministic, emits 4 characters per started 3-byte block, and every
    /// output character is from the base64 alphabet or `=`. Inputs long
    /// enough to overflow the output-size computation are excluded: encoding
    /// them panics.
    #[verifier::external_body]
    pub(crate) fn base64_encode(data: &Vec<u8>) -> (r: String)
        requires
            data@.len() <= usize::MAX as int / 8,
        ensures
            r@ == base64_of(data@),
            r@.len() == 4 * ((data@.len() + 2) / 3),
            forall|i: int| 0 <= i < r@.len() ==> is_base64_char(#[trigger] r@[i]),
    {
        base64::Engine::encode(&base64::engine::general_purpose::STANDARD, data.as_slice())
    }

    /// Generate a password with the default algorithm (HMAC-SHA256).
    pub fn generate(salt: &str, feature: &str, length: usize) -> (r: String)
        ensures
            r@ == spec_password(salt@, feature@, length, Algorithm::HmacSha256),
    {
        Self::generate_with_algo(salt, feature, length, Algorithm::HmacSha256)
    }

    /// Generate a password with the given algorithm. The result is a pure
    /// function of the inputs; its length is the clamped requested length,
    /// capped by the 44 characters that 32 base64-encoded key bytes offer.
    pub fn generate_with_algo(salt: &str, feature: &str, length: usize, algo: Algorithm) -> (r:
        String)
        requires
            (algo == Algorithm::Argon2i || algo == Algorithm::Argon2id) ==> (8
                <= vstd::utf8::encode_utf8(salt@).len() <= 0xFFFFFFFF
                && vstd::utf8::encode_utf8(feature@).len() <= 0xFFFFFFFF),
        ensures
            r@ == spec_password(salt@, feature@, length, algo),
            r@.len() == if spec_clamp_length(length) <= 44 {
                spec_clamp_length(length) as int
            } else {
                44int
            },
    {
        let bytes: Vec<u8> = match algo {
            Algorithm::HmacSha256 => Self::derive_hmac_sha256(salt, feature),
            Algorithm::Argon2i => Self::derive_argon2i(salt, feature),
            Algorithm::Argon2id => Self::derive_argon2id(salt, feature),
            Algorithm::Pbkdf2 => Self::derive_pbkdf2_sha256(feature, salt, 10000),
            Algorithm::Scrypt => Self::derive_scrypt(salt, feature),
        };
        let encoded = Self::base64_encode(&bytes);
        let r = Self::format_password(encoded.as_str(), length);
        proof {
            let stream = base64_of(spec_derive(algo, salt@, feature@));
            let cap = spec_clamp_length(length);
            assert(forall|i: int| 0 <= i < stream.len() ==> is_mappable(#[trigger] stream[i]));
            lemma_emit_all_mappable(stream, cap);
            assert(spec_post(spec_emit(stream, cap)).len() == spec_emit(stream, cap).len());
        }
        r
    }

    /// Map one of `+ / =` to a symbol, keyed by the count of characters
    /// already emitted.
    pub fn map_special(ch: char, idx: usize) -> (r: char)
        ensures
            r == spec_map_special(ch, idx as nat),
    {
        let i: usize = match ch {
            '+' => idx % 8,
            '/' => (idx % 8 + 1) % 8,
            '=' => (idx % 8 + 2) % 8,
            _ => 0,
        };
        proof {
            assert((idx as nat % 8 + 1) % 8 == (idx as nat + 1) % 8) by (nonlinear_arith);
            assert((idx as nat % 8 + 2) % 8 == (idx as nat + 2) % 8) by (nonlinear_arith);
        }
        match i {
            0 => '!',
            1 => '@',
            2 => '#',
            3 => '$',
            4 => '%',
            5 => '^',
            6 => '&',
            _ => '*',
        }
    }

    /// Format raw base64 text into a password of the clamped length, exactly
    /// as `spec_format` describes: scan and remap, then fix up missing
    /// character classes at fixed positions.
    pub fn format_password(raw: &str, length: usize) -> (r: String)
        ensures
            r@ == spec_format(raw@, length),
    {
        let cap: usize = if length < 12 {
            12
        } else if length > 64 {
            64
        } else {
            length
        };
        let n = raw.unicode_len();
        let mut out: Vec<char> = Vec::new();
        let mut has_upper = false;
        let mut has_digit = false;
        let mut has_special = false;
        let mut i: usize = 0;
        while i < n && out.len() < cap
            invariant
                n == raw@.len(),
                0 <= i <= n,
                cap == spec_clamp_length(length),
                out@ == spec_emit(raw@.take(i as int), cap),
                out@.len() <= cap,
                has_upper == has_upper_in(out@),
                has_digit == has_digit_in(out@),
                has_special == has_special_in(out@),
            decreases n - i,
        {
            let c = raw.get_char(i);
            proof {
                lemma_emit_step(raw@, cap, i as int);
            }
            let u = c as u32;
            if 65 <= u && u <= 90 {
                proof {
                    lemma_push_classes(out@, c);
                }
                out.push(c);
                has_upper = true;
            } else if 97 <= u && u <= 122 {
                proof {
                    lemma_push_classes(out@, c);
                }
                out.push(c);
            } else if 48 <= u && u <= 57 {
                proof {
                    lemma_push_classes(out@, c);
                }
                out.push(c);
                has_digit = true;
            } else if c == '+' || c == '/' || c == '=' {
                let m = Self::map_special(c, out.len());
                proof {
                    assert(is_special(m) && !is_upper(m) && !is_digit(m));
                    lemma_push_classes(out@, m);
                }
                out.push(m);
                has_special = true;
            }
            i = i + 1;
        }
        proof {
            if i == n {
                assert(raw@.take(i as int) =~= raw@);
            } else {
                lemma_emit_saturated(raw@, cap, i as int);
            }
        }
        let ghost emitted = out@;
        assert(emitted == spec_emit(raw@, cap));
        let e_len = out.len();
        if !has_upper && e_len > 0 {
            let c0 = out[0];
            let u0 = c0 as u32;
            let up = if 97 <= u0 && u0 <= 122 {
                ((u0 - 32) as u8) as char
            } else {
                c0
            };
            assert(up == spec_to_ascii_upper(emitted[0]));
            out.set(0, up);
        }
        if !has_digit && e_len > 1 {
            let d = e_len % 10;
            out.set(1, (48 + d as u8) as char);
        }
        if !has_special && e_len > 2 {
            out.set(2, '!');
        }
        assert(out@ == spec_post(emitted));
        chars_to_string(out)
    }
}

/// Determinism: any two results of generation from the same salt, feature,
/// length and algorithm are the same password.
pub proof fn lemma_generation_deterministic(
    salt: Seq<char>,
    feature: Seq<char>,
    length: usize,
    algo: Algorithm,
    r1: Seq<char>,
    r2: Seq<char>,
)
    requires
        r1 == spec_password(salt, feature, length, algo),
        r2 == spec_password(salt, feature, length, algo),
    ensures
        r1 == r2,
{
}

pub proof fn lemma_emit_all_mappable(raw: Seq<char>, cap: usize)
    requires
        forall|i: int| 0 <= i < raw.len() ==> is_mappable(#[trigger] raw[i]),
    ensures
        spec_emit(raw, cap).len() == if raw.len() <= cap {
            raw.len() as int
        } else {
            cap as int
        },
    decreases raw.len(),
{
    if raw.len() > 0 {
        assert(forall|i: int|
            0 <= i < raw.drop_last().len() ==> is_mappable(#[trigger] raw.drop_last()[i]));
        lemma_emit_all_mappable(raw.drop_last(), cap);
        assert(is_mappable(raw.last()));
    }
}

/// Errors of the storage cipher, each tied by contract to exactly the inputs
/// that produce it.
#[derive(Debug, Clone, Copy, PartialEq, Eq, Structural)]
pub enum CipherError {
    /// The blob was not base64 text.
    DecodeFailed,
    /// The decoded blob is shorter than a nonce.
    TooShort,
    /// The authentication tag did not verify: wrong password, or corrupted or
    /// tampered data.
    AuthFailed,
    /// The cipher refused to seal (plaintext too long).
    EncryptFailed,
}

/// What AES-256-GCM sealing returns: ciphertext with the 16-byte tag
/// appended, a pure function of key, nonce and plaintext.
pub uninterp spec fn aes256_gcm_seal(key: Seq<u8>, nonce: Seq<u8>, plaintext: Seq<u8>) -> Seq<u8>;

/// The storage key derived from a user password: PBKDF2-HMAC-SHA256 with a
/// fixed salt and 100000 rounds.
pub open spec fn spec_storage_key(password: Seq<char>) -> Seq<u8> {
    pbkdf2_sha256_of(password, "SaltPass-Storage-Key"@, 100000)
}

/// The shape of every encrypted blob: base64 of the nonce followed by the
/// sealed payload under the password-derived key.
pub open spec fn spec_sealed_blob(password: Seq<char>, nonce: Seq<u8>, plaintext: Seq<u8>) -> Seq<
    char,
> {
    base64_of(nonce + aes256_gcm_seal(spec_storage_key(password), nonce, plaintext))
}

/// Relies on aes-gcm's `Aes256Gcm` with the aead `Aead` trait: sealing is
/// deterministic in key, nonce and plaintext and appends a 16-byte tag; it
/// refuses exactly the plaintexts beyond the AES-GCM length bound of 2^36
/// bytes.
#[verifier::external_body]
fn aes_gcm_seal(key: &Vec<u8>, nonce: &Vec<u8>, plaintext: &[u8]) -> (r: Option<Vec<u8>>)
    requires
        key@.len() == 32,
        nonce@.len() == 12,
    ensures
        r is Some ==> r->0@ == aes256_gcm_seal(key@, nonce@, plaintext@) && r->0@.len()
            == plaintext@.len() + 16,
        plaintext@.len() <= 0x10_0000_0000 ==> r is Some,
{
    let key_arr: [u8; 32] = match key.as_slice().try_into() {
        Ok(k) => k,
        Err(_) => return None,
    };
    let cipher = <aes_gcm::Aes256Gcm as aes_gcm::KeyInit>::new(&key_arr.into());
    let nonce_arr = aes_gcm::Nonce::<aes_gcm::aead::consts::U12>::from_slice(nonce.as_slice());
    aes_gcm::aead::Aead::encrypt(&cipher, nonce_arr, plaintext).ok()
}

/// Relies on aes-gcm's `Aes256Gcm` decryption: it succeeds exactly on the
/// seals under the same key and nonce, and returns the sealed plaintext.
#[verifier::external_body]
fn aes_gcm_open(key: &Vec<u8>, nonce: &[u8], ciphertext: &[u8]) -> (r: Option<Vec<u8>>)
    requires
        key@.len() == 32,
        nonce@.len() == 12,
    ensures
        r is Some ==> ciphertext@ == aes256_gcm_seal(key@, nonce@, r->0@),
        r is Some ==> forall|p: Seq<u8>|
            ciphertext@ == aes256_gcm_seal(key@, nonce@, p) ==> r->0@ == p,
        (exists|p: Seq<u8>| ciphertext@ == aes256_gcm_seal(key@, nonce@, p)) ==> r is Some,
{
    let key_arr: [u8; 32] = match key.as_slice().try_into() {
        Ok(k) => k,
        Err(_) => return None,
    };
    let cipher = <aes_gcm::Aes256Gcm as aes_gcm::KeyInit>::new(&key_arr.into());
    let nonce_arr = aes_gcm::Nonce::<aes_gcm::aead::consts::U12>::from_slice(nonce);
    aes_gcm::aead::Aead::decrypt(&cipher, nonce_arr, ciphertext).ok()
}

/// Relies on aes-gcm's `AeadCore::generate_nonce` with the operating system
/// RNG: 12 bytes; random, so nothing more is promised of them.
#[verifier::external_body]
fn generate_nonce() -> (r: Vec<u8>)
    ensures
        r@.len() == 12,
{
    let nonce = <aes_gcm::Aes256Gcm as aes_gcm::aead::AeadCore>::generate_nonce(
        &mut aes_gcm::aead::OsRng,
    );
    nonce.to_vec()
}

/// Relies on base64's `STANDARD` engine decode: canonical padding is
/// required, so decoding succeeds exactly on encodings and inverts them.
#[verifier::external_body]
pub(crate) fn base64_decode(encoded: &str) -> (r: Option<Vec<u8>>)
    ensures
        r is Some ==> encoded@ == base64_of(r->0@),
        r is Some ==> forall|d: Seq<u8>| encoded@ == base64_of(d) ==> r->0@ == d,
        r is None ==> !(exists|d: Seq<u8>| encoded@ == base64_of(d)),
{
    base64::Engine::decode(&base64::engine::general_purpose::STANDARD, encoded).ok()
}

/// AES-256-GCM authenticated encryption for the persisted catalog, keyed by
/// a user-chosen password independent of the master salt.
pub struct StorageCipher;

impl StorageCipher {
    fn derive_key(password: &str) -> (r: Vec<u8>)
        ensures
            r@ == spec_storage_key(password@),
            r@.len() == 32,
    {
        PasswordGenerator::derive_pbkdf2_sha256(password, "SaltPass-Storage-Key", 100000)
    }

    /// Seal `plaintext` under a fresh random nonce with the password-derived
    /// key; the blob is base64(nonce || ciphertext || tag), so it decodes to
    /// 12 + n + 16 bytes and holds base64 characters only. The fresh nonce
    /// makes encryption nondeterministic: the shape of the result is
    /// promised, and success is owed up to the AES-GCM and encoding length
    /// bounds.
    pub fn encrypt(password: &str, plaintext: &[u8]) -> (r: Result<String, CipherError>)
        ensures
            r is Ok ==> exists|nonce: Seq<u8>|
                nonce.len() == 12 && r->Ok_0@ == #[trigger] spec_sealed_blob(
                    password@,
                    nonce,
                    plaintext@,
                ) && aes256_gcm_seal(spec_storage_key(password@), nonce, plaintext@).len()
                    == plaintext@.len() + 16,
            r is Ok ==> r->Ok_0@.len() == 4 * ((plaintext@.len() + 30) / 3),
            r is Ok ==> forall|i: int|
                0 <= i < r->Ok_0@.len() ==> is_base64_char(#[trigger] r->Ok_0@[i]),
            plaintext@.len() <= usize::MAX as int / 8 - 28 && plaintext@.len() <= 0x10_0000_0000
                ==> r is Ok,
            r is Err ==> r->Err_0 == CipherError::EncryptFailed,
    {
        if plaintext.len() > usize::MAX / 8 - 28 {
            return Err(CipherError::EncryptFailed);
        }
        let key = Self::derive_key(password);
        let nonce = generate_nonce();
        let ghost gn = nonce@;
        let mut sealed = match aes_gcm_seal(&key, &nonce, plaintext) {
            Some(c) => c,
            None => {
                return Err(CipherError::EncryptFailed);
            },
        };
        let mut data = nonce;
        data.append(&mut sealed);
        let blob = PasswordGenerator::base64_encode(&data);
        proof {
            assert(gn.len() == 12 && blob@ == spec_sealed_blob(password@, gn, plaintext@)
                && aes256_gcm_seal(spec_storage_key(password@), gn, plaintext@).len()
                == plaintext@.len() + 16);
            assert(data@.len() == plaintext@.len() + 28);
        }
        Ok(blob)
    }

    /// Open a blob produced by `encrypt`: base64-decode, split the 12-byte
    /// nonce, and verify-and-decrypt the rest. Every sealed blob under the
    /// same password opens to its plaintext; each error comes exactly on the
    /// inputs its contract names, and nothing of the plaintext leaks on
    /// failure.
    pub fn decrypt(password: &str, encoded: &str) -> (r: Result<Vec<u8>, CipherError>)
        ensures
            (r == Err::<Vec<u8>, CipherError>(CipherError::DecodeFailed)) <==> !(exists|d: Seq<u8>|
                encoded@ == base64_of(d)),
            (r == Err::<Vec<u8>, CipherError>(CipherError::TooShort)) <==> (exists|d: Seq<u8>|
                encoded@ == base64_of(d) && d.len() < 12),
            (r == Err::<Vec<u8>, CipherError>(CipherError::AuthFailed)) <==> (exists|d: Seq<u8>|
                encoded@ == base64_of(d) && d.len() >= 12 && !(exists|p: Seq<u8>| d.skip(12)
                    == aes256_gcm_seal(spec_storage_key(password@), d.take(12), p))),
            r is Ok ==> exists|nonce: Seq<u8>|
                nonce.len() == 12 && encoded@ == #[trigger] spec_sealed_blob(
                    password@,
                    nonce,
                    r->Ok_0@,
                ),
            forall|nonce: Seq<u8>, p: Seq<u8>|
                nonce.len() == 12 && encoded@ == #[trigger] spec_sealed_blob(password@, nonce, p)
                    ==> r is Ok && r->Ok_0@ == p,
    {
        let key = Self::derive_key(password);
        let mut data = match base64_decode(encoded) {
            Some(d) => d,
            None => {
                return Err(CipherError::DecodeFailed);
            },
        };
        if data.len() < 12 {
            return Err(CipherError::TooShort);
        }
        let ghost gd = data@;
        let ciphertext = data.split_off(12);
        let nonce = data;
        proof {
            assert(nonce@ =~= gd.take(12));
            assert(ciphertext@ =~= gd.skip(12));
        }
        match aes_gcm_open(&key, nonce.as_slice(), ciphertext.as_slice()) {
            Some(plain) => {
                let result: Result<Vec<u8>, CipherError> = Ok(plain);
                proof {
                    assert(gd =~= gd.take(12) + gd.skip(12));
                    assert(encoded@ == spec_sealed_blob(password@, nonce@, result->Ok_0@));
                    assert(exists|n: Seq<u8>|
                        n.len() == 12 && encoded@ == #[trigger] spec_sealed_blob(
                            password@,
                            n,
                            result->Ok_0@,
                        ));
                    assert forall|n2: Seq<u8>, p2: Seq<u8>|
                        n2.len() == 12 && encoded@ == #[trigger] spec_sealed_blob(
                            password@,
                            n2,
                            p2,
                        ) implies result->Ok_0@ == p2 && n2 == nonce@ by {
                        let d2 = n2 + aes256_gcm_seal(spec_storage_key(password@), n2, p2);
                        assert(d2 == gd);
                        assert(d2.take(12) =~= n2);
                        assert(d2.skip(12) =~= aes256_gcm_seal(spec_storage_key(password@), n2, p2));
                    }
                }
                result
            },
            None => {
                proof {
                    assert forall|n2: Seq<u8>, p2: Seq<u8>|
                        !(n2.len() == 12 && encoded@ == #[trigger] spec_sealed_blob(
                            password@,
                            n2,
                            p2,
                        )) by {
                        if n2.len() == 12 && encoded@ == spec_sealed_blob(password@, n2, p2) {
                            let d2 = n2 + aes256_gcm_seal(spec_storage_key(password@), n2, p2);
                            assert(d2 == gd);
                            assert(d2.take(12) =~= n2);
                            assert(d2.skip(12) =~= aes256_gcm_seal(
                                spec_storage_key(password@),
                                n2,
                                p2,
                            ));
                        }
                    }
                }
                Err(CipherError::AuthFailed)
            },
        }
    }
}

/// Relies on `String::push`: appends exactly one character.
#[verifier::external_body]
pub(crate) fn push_char(s: &mut String, c: char)
    ensures
        final(s)@ == old(s)@.push(c),
{
    s.push(c);
}

/// Build a `String` holding exactly the given characters.
pub(crate) fn chars_to_string(v: Vec<char>) -> (r: String)
    ensures
        r@ == v@,
{
    let mut s = String::new();
    let mut i: usize = 0;
    while i < v.len()
        invariant
            0 <= i <= v.len(),
            s@ == v@.take(i as int),
        decreases v.len() - i,
    {
        push_char(&mut s, v[i]);
        proof {
            assert(v@.take(i + 1) =~= v@.take(i as int).push(v@[i as int]));
        }
        i = i + 1;
    }
    proof {
        assert(v@.take(v@.len() as int) =~= v@);
    }
    s
}

} // verus!
