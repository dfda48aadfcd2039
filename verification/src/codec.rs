//! Text codec for the persisted catalog.
//!
//! The catalog is rendered to, and parsed from, a canonical JSON or TOML
//! text. Rendering is a pure function of the catalog; parsing is its exact
//! inverse on rendered text, which is what the round-trip laws state.

use vstd::prelude::*;

verus! {

use crate::crypto::chars_to_string;

broadcast use vstd::utf8::char_u32_cast;

// ---------------------------------------------------------------------------
// Characters and hex digits
// ---------------------------------------------------------------------------

pub open spec fn char_is_digit(c: char) -> bool {
    48 <= c as u32 <= 57
}

pub open spec fn digit_char(n: int) -> char
    recommends
        0 <= n < 10,
{
    ((48 + n) as u8) as char
}

pub open spec fn digit_val(c: char) -> int {
    (c as u32) - 48
}

pub open spec fn hex_digit_char(n: int) -> char
    recommends
        0 <= n < 16,
{
    if n < 10 {
        ((48 + n) as u8) as char
    } else {
        ((87 + n) as u8) as char
    }
}

pub open spec fn is_hex_lower(c: char) -> bool {
    char_is_digit(c) || (97 <= c as u32 <= 102)
}

pub open spec fn hex_val(c: char) -> int {
    if (c as u32) <= 57 {
        (c as u32) - 48
    } else {
        (c as u32) - 87
    }
}

proof fn lemma_char_code_ne(a: char, b: char)
    requires
        a != b,
    ensures
        (a as u32) != (b as u32),
{
    if (a as u32) == (b as u32) {
        assert(((a as u32) as char) == a);
        assert(((b as u32) as char) == b);
    }
}

proof fn lemma_hex_round_trip(n: int)
    requires
        0 <= n < 16,
    ensures
        is_hex_lower(hex_digit_char(n)),
        hex_val(hex_digit_char(n)) == n,
        !(hex_digit_char(n) == '"'),
{
}

// ---------------------------------------------------------------------------
// String escaping shared by the JSON and TOML renderings
// ---------------------------------------------------------------------------

/// How one character appears inside a quoted string: `"` and `\` and the
/// common control characters get short escapes, other control characters get
/// `\u00XX` with lowercase hex, and everything else stands as itself.
pub open spec fn escape_char(c: char) -> Seq<char> {
    if c == '"' {
        seq!['\\', '"']
    } else if c == '\\' {
        seq!['\\', '\\']
    } else if c == '\n' {
        seq!['\\', 'n']
    } else if c == '\r' {
        seq!['\\', 'r']
    } else if c == '\t' {
        seq!['\\', 't']
    } else if (c as u32) < 0x20 {
        seq![
            '\\',
            'u',
            '0',
            '0',
            hex_digit_char(((c as u32) / 16) as int),
            hex_digit_char(((c as u32) % 16) as int),
        ]
    } else {
        seq![c]
    }
}

pub open spec fn escape_string(s: Seq<char>) -> Seq<char>
    decreases s.len(),
{
    if s.len() == 0 {
        Seq::<char>::empty()
    } else {
        escape_char(s[0]) + escape_string(s.skip(1))
    }
}

pub proof fn lemma_escape_concat(a: Seq<char>, b: Seq<char>)
    ensures
        escape_string(a + b) == escape_string(a) + escape_string(b),
    decreases a.len(),
{
    if a.len() == 0 {
        assert(a + b =~= b);
        assert(escape_string(a) + escape_string(b) =~= escape_string(b));
    } else {
        assert((a + b).skip(1) =~= a.skip(1) + b);
        lemma_escape_concat(a.skip(1), b);
        assert((a + b)[0] == a[0]);
        assert(escape_string(a + b) =~= escape_string(a) + escape_string(b));
    }
}

/// Split knowledge of a subrange equal to `a + b` into its two halves.
pub proof fn lemma_split_subrange(t: Seq<char>, i: int, a: Seq<char>, b: Seq<char>)
    requires
        0 <= i,
        i + a.len() + b.len() <= t.len(),
        t.subrange(i, i + a.len() + b.len()) == a + b,
    ensures
        t.subrange(i, i + a.len()) == a,
        t.subrange(i + a.len(), i + a.len() + b.len()) == b,
{
    let ab = t.subrange(i, i + a.len() + b.len());
    assert forall|k: int| 0 <= k < a.len() implies t.subrange(i, i + a.len())[k] == a[k] by {
        assert(ab[k] == t[i + k]);
        assert(ab[k] == (a + b)[k]);
    }
    assert(t.subrange(i, i + a.len()) =~= a);
    assert forall|k: int|
        0 <= k < b.len() implies t.subrange(i + a.len(), i + a.len() + b.len())[k] == b[k] by {
        assert(ab[a.len() + k] == t[i + a.len() + k]);
        assert(ab[a.len() + k] == (a + b)[a.len() + k]);
    }
    assert(t.subrange(i + a.len(), i + a.len() + b.len()) =~= b);
}

proof fn lemma_escape_one(c: char)
    ensures
        escape_string(seq![c]) == escape_char(c),
{
    assert(seq![c].skip(1) =~= Seq::<char>::empty());
    assert(escape_char(c) + escape_string(Seq::<char>::empty()) =~= escape_char(c));
}

/// Append the escaped form of `s` to `out`.
pub(crate) fn escape_append(out: &mut Vec<char>, s: &str)
    ensures
        final(out)@ == old(out)@ + escape_string(s@),
{
    let n = s.unicode_len();
    let mut i: usize = 0;
    while i < n
        invariant
            n == s@.len(),
            0 <= i <= n,
            out@ == old(out)@ + escape_string(s@.take(i as int)),
        decreases n - i,
    {
        let c = s.get_char(i);
        let ghost prev = out@;
        let u = c as u32;
        if c == '"' {
            out.push('\\');
            out.push('"');
        } else if c == '\\' {
            out.push('\\');
            out.push('\\');
        } else if c == '\n' {
            out.push('\\');
            out.push('n');
        } else if c == '\r' {
            out.push('\\');
            out.push('r');
        } else if c == '\t' {
            out.push('\\');
            out.push('t');
        } else if u < 0x20 {
            out.push('\\');
            out.push('u');
            out.push('0');
            out.push('0');
            let hi = (u / 16) as u8;
            let lo = (u % 16) as u8;
            let hc = if hi < 10 {
                (48 + hi) as char
            } else {
                (87 + hi) as char
            };
            let lc = if lo < 10 {
                (48 + lo) as char
            } else {
                (87 + lo) as char
            };
            out.push(hc);
            out.push(lc);
        } else {
            out.push(c);
        }
        proof {
            assert(out@ =~= prev + escape_char(c));
            assert(s@.take(i + 1) =~= s@.take(i as int) + seq![s@[i as int]]);
            lemma_escape_concat(s@.take(i as int), seq![s@[i as int]]);
            lemma_escape_one(c);
            assert(out@ =~= old(out)@ + escape_string(s@.take(i + 1)));
        }
        i = i + 1;
    }
    proof {
        assert(s@.take(n as int) =~= s@);
    }
}

// ---------------------------------------------------------------------------
// Scanning a quoted string's content back out
// ---------------------------------------------------------------------------

/// Scan the interior of a quoted string starting at `i`, unescaping as
/// written by `escape_char`, until the closing quote. Returns the position
/// after the quote and the content. Only canonical escapes are accepted, and
/// raw control characters are not.
pub open spec fn scan_string(t: Seq<char>, i: int, acc: Seq<char>) -> Option<(int, Seq<char>)>
    decreases t.len() - i,
{
    if i < 0 || i >= t.len() {
        None
    } else {
        let c = t[i];
        if c == '"' {
            Some(((i + 1), acc))
        } else if c == '\\' {
            if i + 2 > t.len() {
                None
            } else {
                let e = t[i + 1];
                if e == '"' {
                    scan_string(t, i + 2, acc.push('"'))
                } else if e == '\\' {
                    scan_string(t, i + 2, acc.push('\\'))
                } else if e == 'n' {
                    scan_string(t, i + 2, acc.push('\n'))
                } else if e == 'r' {
                    scan_string(t, i + 2, acc.push('\r'))
                } else if e == 't' {
                    scan_string(t, i + 2, acc.push('\t'))
                } else if e == 'u' {
                    if i + 6 > t.len() {
                        None
                    } else if t[i + 2] == '0' && t[i + 3] == '0' && is_hex_lower(t[i + 4])
                        && is_hex_lower(t[i + 5]) {
                        let v = hex_val(t[i + 4]) * 16 + hex_val(t[i + 5]);
                        if v < 0x20 && v != 0x0a && v != 0x0d && v != 0x09 {
                            scan_string(t, i + 6, acc.push(((v as u8) as char)))
                        } else {
                            None
                        }
                    } else {
                        None
                    }
                } else {
                    None
                }
            }
        } else if (c as u32) < 0x20 {
            None
        } else {
            scan_string(t, i + 1, acc.push(c))
        }
    }
}

/// Scanning the escaped form of `s` followed by a closing quote yields `s`
/// back, whatever stands before or after.
pub proof fn lemma_scan_escaped(t: Seq<char>, i: int, s: Seq<char>, acc: Seq<char>)
    requires
        0 <= i,
        i + escape_string(s).len() + 1 <= t.len(),
        t.subrange(i, i + escape_string(s).len()) == escape_string(s),
        t[i + escape_string(s).len()] == '"',
    ensures
        scan_string(t, i, acc) == Some(((i + escape_string(s).len() + 1), acc + s)),
    decreases s.len(),
{
    if s.len() == 0 {
        assert(escape_string(s).len() == 0);
        assert(t[i] == '"');
        assert(acc + s =~= acc);
    } else {
        let c = s[0];
        let e = escape_char(c);
        let rest = escape_string(s.skip(1));
        assert(escape_string(s) == e + rest);
        lemma_split_subrange(t, i, e, rest);
        assert(forall|k: int|
            0 <= k < e.len() ==> #[trigger] t[i + k] == t.subrange(i, i + e.len())[k]);
        assert(t[i + e.len() + rest.len()] == '"');
        if c == '"' {
            assert(t[i] == '\\' && t[i + 1] == '"');
            lemma_scan_escaped(t, i + 2, s.skip(1), acc.push('"'));
            assert(acc.push(c) + s.skip(1) =~= acc + s);
        } else if c == '\\' {
            assert(t[i] == '\\' && t[i + 1] == '\\');
            lemma_scan_escaped(t, i + 2, s.skip(1), acc.push('\\'));
            assert(acc.push(c) + s.skip(1) =~= acc + s);
        } else if c == '\n' {
            assert(t[i] == '\\' && t[i + 1] == 'n');
            lemma_scan_escaped(t, i + 2, s.skip(1), acc.push('\n'));
            assert(acc.push(c) + s.skip(1) =~= acc + s);
        } else if c == '\r' {
            assert(t[i] == '\\' && t[i + 1] == 'r');
            lemma_scan_escaped(t, i + 2, s.skip(1), acc.push('\r'));
            assert(acc.push(c) + s.skip(1) =~= acc + s);
        } else if c == '\t' {
            assert(t[i] == '\\' && t[i + 1] == 't');
            lemma_scan_escaped(t, i + 2, s.skip(1), acc.push('\t'));
            assert(acc.push(c) + s.skip(1) =~= acc + s);
        } else if (c as u32) < 0x20 {
            let hi = ((c as u32) / 16) as int;
            let lo = ((c as u32) % 16) as int;
            assert(0 <= hi < 2 && 0 <= lo < 16);
            lemma_hex_round_trip(hi);
            lemma_hex_round_trip(lo);
            assert(t[i] == '\\' && t[i + 1] == 'u' && t[i + 2] == '0' && t[i + 3] == '0');
            assert(t[i + 4] == hex_digit_char(hi) && t[i + 5] == hex_digit_char(lo));
            let v = hex_val(t[i + 4]) * 16 + hex_val(t[i + 5]);
            assert(v == hi * 16 + lo);
            assert(v == c as u32) by {
                assert(hi * 16 + lo == c as u32) by (nonlinear_arith)
                    requires
                        hi == ((c as u32) / 16) as int && lo == ((c as u32) % 16) as int && (c
                            as u32) < 0x20,
                ;
            }
            assert(c != '\n' && c != '\r' && c != '\t');
            lemma_char_code_ne(c, '\n');
            lemma_char_code_ne(c, '\r');
            lemma_char_code_ne(c, '\t');
            assert(('\n' as u32) == 0x0a && ('\r' as u32) == 0x0d && ('\t' as u32) == 0x09);
            assert(v != 0x0a && v != 0x0d && v != 0x09);
            let b: u8 = v as u8;
            assert(b as u32 == c as u32);
            vstd::utf8::char_u32_cast(c, c as u32);
            assert(((c as u32) as char) == c);
            assert((b as char) == ((b as u32) as char));
            assert((b as char) == c);
            lemma_scan_escaped(t, i + 6, s.skip(1), acc.push(c));
            assert(acc.push(c) + s.skip(1) =~= acc + s);
        } else {
            assert(t[i + 0] == t.subrange(i, i + e.len())[0]);
            assert(t[i] == c);
            assert(c != '"' && c != '\\' && !((c as u32) < 0x20));
            lemma_scan_escaped(t, i + 1, s.skip(1), acc.push(c));
            assert(acc.push(c) + s.skip(1) =~= acc + s);
        }
    }
}

/// Scan a quoted string's interior in executable code, returning exactly
/// what `scan_string` describes.
pub(crate) fn scan_string_exec(t: &str, i: usize) -> (r: Option<(usize, Vec<char>)>)
    ensures
        r is Some ==> ({
            let (j2, s2) = r->0;
            &&& scan_string(t@, i as int, Seq::<char>::empty()) == Some(((j2 as int), s2@))
            &&& i < j2 <= t@.len()
        }),
        r is None ==> scan_string(t@, i as int, Seq::<char>::empty()) is None,
{
    let n = t.unicode_len();
    let mut j = i;
    let mut acc: Vec<char> = Vec::new();
    loop
        invariant
            n == t@.len(),
            i <= j,
            scan_string(t@, i as int, Seq::<char>::empty()) == scan_string(t@, j as int, acc@),
        decreases n - j,
    {
        if j >= n {
            return None;
        }
        let c = t.get_char(j);
        if c == '"' {
            return Some((j + 1, acc));
        } else if c == '\\' {
            if n - j < 2 {
                return None;
            }
            let e = t.get_char(j + 1);
            if e == '"' {
                acc.push('"');
                j = j + 2;
            } else if e == '\\' {
                acc.push('\\');
                j = j + 2;
            } else if e == 'n' {
                acc.push('\n');
                j = j + 2;
            } else if e == 'r' {
                acc.push('\r');
                j = j + 2;
            } else if e == 't' {
                acc.push('\t');
                j = j + 2;
            } else if e == 'u' {
                if n - j < 6 {
                    return None;
                }
                let d2 = t.get_char(j + 2);
                let d3 = t.get_char(j + 3);
                let h1 = t.get_char(j + 4);
                let h2 = t.get_char(j + 5);
                let h1u = h1 as u32;
                let h2u = h2 as u32;
                let h1_ok = (48 <= h1u && h1u <= 57) || (97 <= h1u && h1u <= 102);
                let h2_ok = (48 <= h2u && h2u <= 57) || (97 <= h2u && h2u <= 102);
                if d2 == '0' && d3 == '0' && h1_ok && h2_ok {
                    let v1: u32 = if h1u <= 57 {
                        h1u - 48
                    } else {
                        h1u - 87
                    };
                    let v2: u32 = if h2u <= 57 {
                        h2u - 48
                    } else {
                        h2u - 87
                    };
                    let v: u32 = v1 * 16 + v2;
                    if v < 0x20 && v != 0x0a && v != 0x0d && v != 0x09 {
                        acc.push((v as u8) as char);
                        j = j + 6;
                    } else {
                        return None;
                    }
                } else {
                    return None;
                }
            } else {
                return None;
            }
        } else if (c as u32) < 0x20 {
            return None;
        } else {
            acc.push(c);
            j = j + 1;
        }
    }
}

// ---------------------------------------------------------------------------
// Fixed literal fragments
// ---------------------------------------------------------------------------

/// Match the fixed text `lit` at position `i`.
pub open spec fn expect_lit(t: Seq<char>, i: int, lit: Seq<char>) -> Option<int> {
    if 0 <= i && i + lit.len() <= t.len() && t.subrange(i, i + lit.len()) == lit {
        Some(i + lit.len())
    } else {
        None
    }
}

pub(crate) fn expect_lit_exec(t: &str, i: usize, lit: &str) -> (r: Option<usize>)
    ensures
        r is Some ==> r->0 == i + lit@.len() && expect_lit(t@, i as int, lit@) == Some(
            (i + lit@.len()) as int,
        ),
        r is None ==> expect_lit(t@, i as int, lit@) is None,
{
    let n = t.unicode_len();
    let m = lit.unicode_len();
    if m > n || i > n - m {
        return None;
    }
    let mut k: usize = 0;
    while k < m
        invariant
            0 <= k <= m,
            i + m <= n,
            n == t@.len(),
            m == lit@.len(),
            forall|q: int| 0 <= q < k ==> t@[i + q] == lit@[q],
        decreases m - k,
    {
        if t.get_char(i + k) != lit.get_char(k) {
            proof {
                if t@.subrange(i as int, (i + m) as int) == lit@ {
                    assert(t@.subrange(i as int, (i + m) as int)[k as int] == t@[i + k]);
                    assert(false);
                }
            }
            return None;
        }
        k = k + 1;
    }
    proof {
        assert(t@.subrange(i as int, (i + m) as int) =~= lit@);
    }
    Some(i + m)
}

/// Append the text of `s` to `out` unchanged.
pub(crate) fn append_lit(out: &mut Vec<char>, s: &str)
    ensures
        final(out)@ == old(out)@ + s@,
{
    let n = s.unicode_len();
    let mut i: usize = 0;
    while i < n
        invariant
            n == s@.len(),
            0 <= i <= n,
            out@ == old(out)@ + s@.take(i as int),
        decreases n - i,
    {
        let c = s.get_char(i);
        out.push(c);
        proof {
            assert(s@.take(i + 1) =~= s@.take(i as int).push(s@[i as int]));
            assert(out@ =~= old(out)@ + s@.take(i + 1));
        }
        i = i + 1;
    }
    proof {
        assert(s@.take(n as int) =~= s@);
    }
}

// ---------------------------------------------------------------------------
// Timestamps as ISO-8601 UTC text
// ---------------------------------------------------------------------------

pub open spec fn render_2(n: int) -> Seq<char> {
    seq![digit_char(n / 10 % 10), digit_char(n % 10)]
}

pub open spec fn render_4(n: int) -> Seq<char> {
    seq![
        digit_char(n / 1000 % 10),
        digit_char(n / 100 % 10),
        digit_char(n / 10 % 10),
        digit_char(n % 10),
    ]
}

/// `YYYY-MM-DDTHH:MM:SSZ`, 20 characters.
pub open spec fn render_ts(v: crate::time::TimestampView) -> Seq<char> {
    render_4(v.year as int) + seq!['-'] + render_2(v.month as int) + seq!['-'] + render_2(
        v.day as int,
    ) + seq!['T'] + render_2(v.hour as int) + seq![':'] + render_2(v.minute as int) + seq![':']
        + render_2(v.second as int) + seq!['Z']
}

pub open spec fn ts_digits_ok(t: Seq<char>, i: int) -> bool {
    &&& char_is_digit(t[i]) && char_is_digit(t[i + 1]) && char_is_digit(t[i + 2]) && char_is_digit(
        t[i + 3],
    )
    &&& t[i + 4] == '-'
    &&& char_is_digit(t[i + 5]) && char_is_digit(t[i + 6])
    &&& t[i + 7] == '-'
    &&& char_is_digit(t[i + 8]) && char_is_digit(t[i + 9])
    &&& t[i + 10] == 'T'
    &&& char_is_digit(t[i + 11]) && char_is_digit(t[i + 12])
    &&& t[i + 13] == ':'
    &&& char_is_digit(t[i + 14]) && char_is_digit(t[i + 15])
    &&& t[i + 16] == ':'
    &&& char_is_digit(t[i + 17]) && char_is_digit(t[i + 18])
    &&& t[i + 19] == 'Z'
}

pub open spec fn two_digit_val(t: Seq<char>, i: int) -> int {
    digit_val(t[i]) * 10 + digit_val(t[i + 1])
}

/// Parse the 20-character timestamp at `i`; `None` on any deviation from the
/// canonical form or on out-of-range fields.
pub open spec fn parse_ts(t: Seq<char>, i: int) -> Option<crate::time::TimestampView> {
    if i < 0 || i + 20 > t.len() {
        None
    } else if !ts_digits_ok(t, i) {
        None
    } else {
        let y = digit_val(t[i]) * 1000 + digit_val(t[i + 1]) * 100 + digit_val(t[i + 2]) * 10
            + digit_val(t[i + 3]);
        let mo = two_digit_val(t, i + 5);
        let dd = two_digit_val(t, i + 8);
        let hh = two_digit_val(t, i + 11);
        let mi = two_digit_val(t, i + 14);
        let ss = two_digit_val(t, i + 17);
        if 1 <= y <= 9999 && 1 <= mo <= 12 && 1 <= dd <= 31 && hh <= 23 && mi <= 59 && ss <= 59 {
            Some(
                crate::time::TimestampView {
                    year: y as u16,
                    month: mo as u8,
                    day: dd as u8,
                    hour: hh as u8,
                    minute: mi as u8,
                    second: ss as u8,
                },
            )
        } else {
            None
        }
    }
}

proof fn lemma_digit_round_trip(d: int)
    requires
        0 <= d < 10,
    ensures
        char_is_digit(digit_char(d)),
        digit_val(digit_char(d)) == d,
        !(digit_char(d) == '-') && !(digit_char(d) == ':') && !(digit_char(d) == 'T') && !(
        digit_char(d) == 'Z') && !(digit_char(d) == '"'),
{
}

proof fn lemma_4digit(n: int)
    requires
        0 <= n < 10000,
    ensures
        (n / 1000 % 10) * 1000 + (n / 100 % 10) * 100 + (n / 10 % 10) * 10 + n % 10 == n,
{
    assert((n / 1000 % 10) * 1000 + (n / 100 % 10) * 100 + (n / 10 % 10) * 10 + n % 10 == n)
        by (nonlinear_arith)
        requires
            0 <= n < 10000,
    ;
}

proof fn lemma_2digit(n: int)
    requires
        0 <= n < 100,
    ensures
        (n / 10 % 10) * 10 + n % 10 == n,
{
    assert((n / 10 % 10) * 10 + n % 10 == n) by (nonlinear_arith)
        requires
            0 <= n < 100,
    ;
}

/// Parsing the canonical rendering of a well-formed timestamp returns it.
#[verifier::rlimit(100)]
pub proof fn lemma_parse_render_ts(t: Seq<char>, i: int, v: crate::time::TimestampView)
    requires
        0 <= i,
        i + 20 <= t.len(),
        crate::time::view_well_formed(v),
        t.subrange(i, i + 20) == render_ts(v),
    ensures
        parse_ts(t, i) == Some(v),
{
    let r = render_ts(v);
    assert(r.len() == 20);
    assert(forall|k: int| 0 <= k < 20 ==> #[trigger] t[i + k] == t.subrange(i, i + 20)[k]);
    assert(forall|d: int|
        0 <= d < 10 ==> char_is_digit(#[trigger] digit_char(d)) && digit_val(digit_char(d)) == d
            && digit_char(d) != '-' && digit_char(d) != ':' && digit_char(d) != 'T' && digit_char(d)
            != 'Z') by {
        assert forall|d: int| 0 <= d < 10 implies char_is_digit(#[trigger] digit_char(d))
            && digit_val(digit_char(d)) == d && digit_char(d) != '-' && digit_char(d) != ':'
            && digit_char(d) != 'T' && digit_char(d) != 'Z' by {
            lemma_digit_round_trip(d);
        }
    }
    let y = v.year as int;
    let mo = v.month as int;
    let dd = v.day as int;
    let hh = v.hour as int;
    let mi = v.minute as int;
    let ss = v.second as int;
    assert(t[i + 0] == digit_char(y / 1000 % 10));
    assert(t[i + 1] == digit_char(y / 100 % 10));
    assert(t[i + 2] == digit_char(y / 10 % 10));
    assert(t[i + 3] == digit_char(y % 10));
    assert(t[i + 4] == '-');
    assert(t[i + 5] == digit_char(mo / 10 % 10));
    assert(t[i + 6] == digit_char(mo % 10));
    assert(t[i + 7] == '-');
    assert(t[i + 8] == digit_char(dd / 10 % 10));
    assert(t[i + 9] == digit_char(dd % 10));
    assert(t[i + 10] == 'T');
    assert(t[i + 11] == digit_char(hh / 10 % 10));
    assert(t[i + 12] == digit_char(hh % 10));
    assert(t[i + 13] == ':');
    assert(t[i + 14] == digit_char(mi / 10 % 10));
    assert(t[i + 15] == digit_char(mi % 10));
    assert(t[i + 16] == ':');
    assert(t[i + 17] == digit_char(ss / 10 % 10));
    assert(t[i + 18] == digit_char(ss % 10));
    assert(t[i + 19] == 'Z');
    assert(ts_digits_ok(t, i));
    lemma_4digit(y);
    lemma_2digit(mo);
    lemma_2digit(dd);
    lemma_2digit(hh);
    lemma_2digit(mi);
    lemma_2digit(ss);
    assert(digit_val(t[i]) * 1000 + digit_val(t[i + 1]) * 100 + digit_val(t[i + 2]) * 10
        + digit_val(t[i + 3]) == y);
    assert(two_digit_val(t, i + 5) == mo);
    assert(two_digit_val(t, i + 8) == dd);
    assert(two_digit_val(t, i + 11) == hh);
    assert(two_digit_val(t, i + 14) == mi);
    assert(two_digit_val(t, i + 17) == ss);
}

/// Append the canonical timestamp text for `v`.
pub(crate) fn render_ts_append(out: &mut Vec<char>, ts: &crate::time::Timestamp)
    ensures
        final(out)@ == old(out)@ + render_ts(ts@),
{
    proof {
        use_type_invariant(&*ts);
        ts.lemma_well_formed();
    }
    let y = ts.year();
    let mo = ts.month();
    let dd = ts.day();
    let hh = ts.hour();
    let mi = ts.minute();
    let ss = ts.second();
    let ghost p0 = old(out)@;
    push_4(out, y);
    proof {
        assert(out@ == p0 + render_4(y as int));
    }
    out.push('-');
    proof {
        assert(out@ =~= p0 + render_4(y as int) + seq!['-']);
    }
    push_2(out, mo);
    proof {
        assert(out@ =~= p0 + render_4(y as int) + seq!['-'] + render_2(mo as int));
    }
    out.push('-');
    proof {
        assert(out@ =~= p0 + render_4(y as int) + seq!['-'] + render_2(mo as int) + seq!['-']);
    }
    push_2(out, dd);
    proof {
        assert(out@ =~= p0 + render_4(y as int) + seq!['-'] + render_2(mo as int) + seq!['-']
            + render_2(dd as int));
    }
    out.push('T');
    proof {
        assert(out@ =~= p0 + render_4(y as int) + seq!['-'] + render_2(mo as int) + seq!['-']
            + render_2(dd as int) + seq!['T']);
    }
    push_2(out, hh);
    proof {
        assert(out@ =~= p0 + render_4(y as int) + seq!['-'] + render_2(mo as int) + seq!['-']
            + render_2(dd as int) + seq!['T'] + render_2(hh as int));
    }
    out.push(':');
    proof {
        assert(out@ =~= p0 + render_4(y as int) + seq!['-'] + render_2(mo as int) + seq!['-']
            + render_2(dd as int) + seq!['T'] + render_2(hh as int) + seq![':']);
    }
    push_2(out, mi);
    proof {
        assert(out@ =~= p0 + render_4(y as int) + seq!['-'] + render_2(mo as int) + seq!['-']
            + render_2(dd as int) + seq!['T'] + render_2(hh as int) + seq![':']
            + render_2(mi as int));
    }
    out.push(':');
    proof {
        assert(out@ =~= p0 + render_4(y as int) + seq!['-'] + render_2(mo as int) + seq!['-']
            + render_2(dd as int) + seq!['T'] + render_2(hh as int) + seq![':']
            + render_2(mi as int) + seq![':']);
    }
    push_2(out, ss);
    proof {
        assert(out@ =~= p0 + render_4(y as int) + seq!['-'] + render_2(mo as int) + seq!['-']
            + render_2(dd as int) + seq!['T'] + render_2(hh as int) + seq![':']
            + render_2(mi as int) + seq![':'] + render_2(ss as int));
    }
    out.push('Z');
    proof {
        assert(out@ =~= p0 + render_4(y as int) + seq!['-'] + render_2(mo as int) + seq!['-']
            + render_2(dd as int) + seq!['T'] + render_2(hh as int) + seq![':']
            + render_2(mi as int) + seq![':'] + render_2(ss as int) + seq!['Z']);
    }
}

fn push_2(out: &mut Vec<char>, n: u8)
    ensures
        final(out)@ == old(out)@ + render_2(n as int),
{
    push_digit(out, n / 10 % 10);
    push_digit(out, n % 10);
    proof {
        assert(out@ =~= old(out)@ + render_2(n as int));
    }
}

fn push_4(out: &mut Vec<char>, n: u16)
    ensures
        final(out)@ == old(out)@ + render_4(n as int),
{
    push_digit(out, (n / 1000 % 10) as u8);
    push_digit(out, (n / 100 % 10) as u8);
    push_digit(out, (n / 10 % 10) as u8);
    push_digit(out, (n % 10) as u8);
    proof {
        assert(out@ =~= old(out)@ + render_4(n as int));
    }
}

fn push_digit(out: &mut Vec<char>, d: u8)
    requires
        d < 10,
    ensures
        final(out)@ == old(out)@.push(digit_char(d as int)),
{
    out.push((48 + d) as char);
}

/// Parse the timestamp at `i` in executable code.
pub(crate) fn parse_ts_exec(t: &str, i: usize) -> (r: Option<crate::time::Timestamp>)
    ensures
        r is Some <==> parse_ts(t@, i as int) is Some,
        r is Some ==> r->0@ == parse_ts(t@, i as int)->0,
{
    let n = t.unicode_len();
    if n < 20 || i > n - 20 {
        return None;
    }
    let d0 = read_digit(t, i);
    let d1 = read_digit(t, i + 1);
    let d2 = read_digit(t, i + 2);
    let d3 = read_digit(t, i + 3);
    let s4 = t.get_char(i + 4);
    let d5 = read_digit(t, i + 5);
    let d6 = read_digit(t, i + 6);
    let s7 = t.get_char(i + 7);
    let d8 = read_digit(t, i + 8);
    let d9 = read_digit(t, i + 9);
    let s10 = t.get_char(i + 10);
    let d11 = read_digit(t, i + 11);
    let d12 = read_digit(t, i + 12);
    let s13 = t.get_char(i + 13);
    let d14 = read_digit(t, i + 14);
    let d15 = read_digit(t, i + 15);
    let s16 = t.get_char(i + 16);
    let d17 = read_digit(t, i + 17);
    let d18 = read_digit(t, i + 18);
    let s19 = t.get_char(i + 19);
    match (d0, d1, d2, d3, d5, d6, d8, d9, d11, d12, d14, d15, d17, d18) {
        (
            Some(a0),
            Some(a1),
            Some(a2),
            Some(a3),
            Some(b0),
            Some(b1),
            Some(c0),
            Some(c1),
            Some(e0),
            Some(e1),
            Some(f0),
            Some(f1),
            Some(g0),
            Some(g1),
        ) => {
            if s4 == '-' && s7 == '-' && s10 == 'T' && s13 == ':' && s16 == ':' && s19 == 'Z' {
                let y: u16 = a0 as u16 * 1000 + a1 as u16 * 100 + a2 as u16 * 10 + a3 as u16;
                let mo: u8 = b0 * 10 + b1;
                let dd: u8 = c0 * 10 + c1;
                let hh: u8 = e0 * 10 + e1;
                let mi: u8 = f0 * 10 + f1;
                let ss: u8 = g0 * 10 + g1;
                match crate::time::Timestamp::new(y, mo, dd, hh, mi, ss) {
                    Some(ts) => Some(ts),
                    None => None,
                }
            } else {
                None
            }
        },
        _ => None,
    }
}

fn read_digit(t: &str, i: usize) -> (r: Option<u8>)
    requires
        i < t@.len(),
    ensures
        r is Some <==> char_is_digit(t@[i as int]),
        r is Some ==> r->0 == digit_val(t@[i as int]) && r->0 < 10,
{
    let c = t.get_char(i);
    let u = c as u32;
    if 48 <= u && u <= 57 {
        Some((u - 48) as u8)
    } else {
        None
    }
}

// ---------------------------------------------------------------------------
// Algorithm tags by their serialized names
// ---------------------------------------------------------------------------

pub open spec fn algo_ident(a: crate::crypto::Algorithm) -> Seq<char> {
    match a {
        crate::crypto::Algorithm::HmacSha256 => "HmacSha256"@,
        crate::crypto::Algorithm::Argon2i => "Argon2i"@,
        crate::crypto::Algorithm::Argon2id => "Argon2id"@,
        crate::crypto::Algorithm::Pbkdf2 => "Pbkdf2"@,
        crate::crypto::Algorithm::Scrypt => "Scrypt"@,
    }
}

/// The serialized name followed by the closing quote of its field.
pub open spec fn algo_ident_q(a: crate::crypto::Algorithm) -> Seq<char> {
    algo_ident(a) + seq!['"']
}

/// Parse an algorithm name and its closing quote at `i`.
pub open spec fn parse_algo(t: Seq<char>, i: int) -> Option<(int, crate::crypto::Algorithm)> {
    if expect_lit(t, i, algo_ident_q(crate::crypto::Algorithm::HmacSha256)) is Some {
        Some(
            (
                expect_lit(t, i, algo_ident_q(crate::crypto::Algorithm::HmacSha256))->0,
                crate::crypto::Algorithm::HmacSha256,
            ),
        )
    } else if expect_lit(t, i, algo_ident_q(crate::crypto::Algorithm::Argon2id)) is Some {
        Some(
            (
                expect_lit(t, i, algo_ident_q(crate::crypto::Algorithm::Argon2id))->0,
                crate::crypto::Algorithm::Argon2id,
            ),
        )
    } else if expect_lit(t, i, algo_ident_q(crate::crypto::Algorithm::Argon2i)) is Some {
        Some(
            (
                expect_lit(t, i, algo_ident_q(crate::crypto::Algorithm::Argon2i))->0,
                crate::crypto::Algorithm::Argon2i,
            ),
        )
    } else if expect_lit(t, i, algo_ident_q(crate::crypto::Algorithm::Pbkdf2)) is Some {
        Some(
            (
                expect_lit(t, i, algo_ident_q(crate::crypto::Algorithm::Pbkdf2))->0,
                crate::crypto::Algorithm::Pbkdf2,
            ),
        )
    } else if expect_lit(t, i, algo_ident_q(crate::crypto::Algorithm::Scrypt)) is Some {
        Some(
            (
                expect_lit(t, i, algo_ident_q(crate::crypto::Algorithm::Scrypt))->0,
                crate::crypto::Algorithm::Scrypt,
            ),
        )
    } else {
        None
    }
}

proof fn reveal_algo_idents()
    ensures
        algo_ident(crate::crypto::Algorithm::HmacSha256) == seq![
            'H',
            'm',
            'a',
            'c',
            'S',
            'h',
            'a',
            '2',
            '5',
            '6',
        ],
        algo_ident(crate::crypto::Algorithm::Argon2i) == seq!['A', 'r', 'g', 'o', 'n', '2', 'i'],
        algo_ident(crate::crypto::Algorithm::Argon2id) == seq![
            'A',
            'r',
            'g',
            'o',
            'n',
            '2',
            'i',
            'd',
        ],
        algo_ident(crate::crypto::Algorithm::Pbkdf2) == seq!['P', 'b', 'k', 'd', 'f', '2'],
        algo_ident(crate::crypto::Algorithm::Scrypt) == seq!['S', 'c', 'r', 'y', 'p', 't'],
{
    reveal_strlit("HmacSha256");
    reveal_strlit("Argon2i");
    reveal_strlit("Argon2id");
    reveal_strlit("Pbkdf2");
    reveal_strlit("Scrypt");
    assert(algo_ident(crate::crypto::Algorithm::HmacSha256) =~= seq![
        'H',
        'm',
        'a',
        'c',
        'S',
        'h',
        'a',
        '2',
        '5',
        '6',
    ]);
    assert(algo_ident(crate::crypto::Algorithm::Argon2i) =~= seq!['A', 'r', 'g', 'o', 'n', '2', 'i']);
    assert(algo_ident(crate::crypto::Algorithm::Argon2id) =~= seq![
        'A',
        'r',
        'g',
        'o',
        'n',
        '2',
        'i',
        'd',
    ]);
    assert(algo_ident(crate::crypto::Algorithm::Pbkdf2) =~= seq!['P', 'b', 'k', 'd', 'f', '2']);
    assert(algo_ident(crate::crypto::Algorithm::Scrypt) =~= seq!['S', 'c', 'r', 'y', 'p', 't']);
}

/// Parsing a rendered algorithm name (with its closing quote) returns the
/// algorithm and the position after the quote.
pub proof fn lemma_parse_algo(t: Seq<char>, i: int, a: crate::crypto::Algorithm)
    requires
        0 <= i,
        i + algo_ident_q(a).len() <= t.len(),
        t.subrange(i, i + algo_ident_q(a).len()) == algo_ident_q(a),
    ensures
        parse_algo(t, i) == Some(((i + algo_ident_q(a).len()), a)),
{
    reveal_algo_idents();
    let q = algo_ident_q(a);
    assert(forall|k: int| 0 <= k < q.len() ==> #[trigger] t[i + k] == t.subrange(i, i + q.len())[k]);
    assert(expect_lit(t, i, q) == Some(i + q.len()));
    assert forall|b: crate::crypto::Algorithm|
        b != a implies expect_lit(t, i, algo_ident_q(b)) is None by {
        let qb = algo_ident_q(b);
        if expect_lit(t, i, qb) is Some {
            assert(t.subrange(i, i + qb.len()) == qb);
            assert(forall|k: int|
                0 <= k < qb.len() ==> #[trigger] t[i + k] == t.subrange(i, i + qb.len())[k]);
            if qb.len() == q.len() {
                assert(t[i + 0] == qb[0]);
                assert(t[i + 0] == q[0]);
                assert(qb[0] == algo_ident(b)[0]);
                assert(q[0] == algo_ident(a)[0]);
                assert(false);
            } else if qb.len() < q.len() {
                assert(t[i + qb.len() - 1] == qb[qb.len() - 1]);
                assert(qb[qb.len() - 1] == '"');
                assert(t[i + qb.len() - 1] == q[qb.len() - 1]);
                assert(false);
            } else {
                assert(t[i + q.len() - 1] == q[q.len() - 1]);
                assert(q[q.len() - 1] == '"');
                assert(t[i + q.len() - 1] == qb[q.len() - 1]);
                assert(false);
            }
        }
    }
}

pub(crate) fn parse_algo_exec(t: &str, i: usize) -> (r: Option<(usize, crate::crypto::Algorithm)>)
    ensures
        r is Some ==> ({
            let (j2, a2) = r->0;
            parse_algo(t@, i as int) == Some(((j2 as int), a2)) && i < j2 <= t@.len()
        }),
        r is None ==> parse_algo(t@, i as int) is None,
{
    proof {
        reveal_strlit("HmacSha256\"");
        reveal_strlit("Argon2id\"");
        reveal_strlit("Argon2i\"");
        reveal_strlit("Pbkdf2\"");
        reveal_strlit("Scrypt\"");
        reveal_algo_idents();
        assert("HmacSha256\""@ =~= algo_ident_q(crate::crypto::Algorithm::HmacSha256));
        assert("Argon2id\""@ =~= algo_ident_q(crate::crypto::Algorithm::Argon2id));
        assert("Argon2i\""@ =~= algo_ident_q(crate::crypto::Algorithm::Argon2i));
        assert("Pbkdf2\""@ =~= algo_ident_q(crate::crypto::Algorithm::Pbkdf2));
        assert("Scrypt\""@ =~= algo_ident_q(crate::crypto::Algorithm::Scrypt));
    }
    if let Some(j) = expect_lit_exec(t, i, "HmacSha256\"") {
        Some((j, crate::crypto::Algorithm::HmacSha256))
    } else if let Some(j) = expect_lit_exec(t, i, "Argon2id\"") {
        Some((j, crate::crypto::Algorithm::Argon2id))
    } else if let Some(j) = expect_lit_exec(t, i, "Argon2i\"") {
        Some((j, crate::crypto::Algorithm::Argon2i))
    } else if let Some(j) = expect_lit_exec(t, i, "Pbkdf2\"") {
        Some((j, crate::crypto::Algorithm::Pbkdf2))
    } else if let Some(j) = expect_lit_exec(t, i, "Scrypt\"") {
        Some((j, crate::crypto::Algorithm::Scrypt))
    } else {
        None
    }
}

// ---------------------------------------------------------------------------
// JSON rendering of the catalog
// ---------------------------------------------------------------------------

pub open spec fn store_wf(sv: Seq<crate::models::FeatureView>) -> bool {
    forall|k: int|
        0 <= k < sv.len() ==> crate::time::view_well_formed(#[trigger] sv[k].created)
}

/// The hint field's value: `null`, or the escaped hint in quotes.
pub open spec fn render_hint_json(h: Option<Seq<char>>) -> Seq<char> {
    match h {
        None => "null"@,
        Some(s) => seq!['"'] + (escape_string(s) + seq!['"']),
    }
}

/// One catalog entry as a canonical JSON object, fields in fixed order.
#[verifier::opaque]
pub open spec fn render_entry_json(e: crate::models::FeatureView) -> Seq<char> {
    "{\"name\":\""@ + (escape_string(e.name) + (seq!['"'] + (",\"feature\":\""@ + (escape_string(
        e.feature,
    ) + (seq!['"'] + (",\"algorithm\":\""@ + (algo_ident_q(e.algorithm) + (",\"created\":\""@ + (
    render_ts(e.created) + ("\",\"hint\":"@ + (render_hint_json(e.hint) + "}"@)))))))))))
}

pub open spec fn render_entries_json(sv: Seq<crate::models::FeatureView>) -> Seq<char>
    decreases sv.len(),
{
    if sv.len() == 0 {
        Seq::<char>::empty()
    } else if sv.len() == 1 {
        render_entry_json(sv[0])
    } else {
        render_entry_json(sv[0]) + (seq![','] + render_entries_json(sv.skip(1)))
    }
}

/// The whole catalog as one canonical JSON text.
pub open spec fn render_json(sv: Seq<crate::models::FeatureView>) -> Seq<char> {
    "{\"features\":["@ + (render_entries_json(sv) + "]}"@)
}

// ---------------------------------------------------------------------------
// JSON parsing
// ---------------------------------------------------------------------------

pub open spec fn parse_hint_json(t: Seq<char>, i: int) -> Option<(int, Option<Seq<char>>)> {
    if 0 <= i < t.len() && t[i] == 'n' {
        match expect_lit(t, i, "null"@) {
            None => None,
            Some(j) => Some((j, None)),
        }
    } else {
        match expect_lit(t, i, seq!['"']) {
            None => None,
            Some(j) => match scan_string(t, j, Seq::<char>::empty()) {
                None => None,
                Some((j2, h)) => Some((j2, Some(h))),
            },
        }
    }
}

pub open spec fn parse_entry_json(t: Seq<char>, i: int) -> Option<(int, crate::models::FeatureView)> {
    match expect_lit(t, i, "{\"name\":\""@) {
        None => None,
        Some(i1) => match scan_string(t, i1, Seq::<char>::empty()) {
            None => None,
            Some((i2, name)) => match expect_lit(t, i2, ",\"feature\":\""@) {
                None => None,
                Some(i3) => match scan_string(t, i3, Seq::<char>::empty()) {
                    None => None,
                    Some((i4, feat)) => match expect_lit(t, i4, ",\"algorithm\":\""@) {
                        None => None,
                        Some(i5) => match parse_algo(t, i5) {
                            None => None,
                            Some((i6, algo)) => match expect_lit(t, i6, ",\"created\":\""@) {
                                None => None,
                                Some(i7) => match parse_ts(t, i7) {
                                    None => None,
                                    Some(tv) => match expect_lit(t, i7 + 20, "\",\"hint\":"@) {
                                        None => None,
                                        Some(i8) => match parse_hint_json(t, i8) {
                                            None => None,
                                            Some((i9, hint)) => match expect_lit(t, i9, "}"@) {
                                                None => None,
                                                Some(end) => Some(
                                                    (
                                                        end,
                                                        crate::models::FeatureView {
                                                            name,
                                                            feature: feat,
                                                            algorithm: algo,
                                                            created: tv,
                                                            hint,
                                                        },
                                                    ),
                                                ),
                                            },
                                        },
                                    },
                                },
                            },
                        },
                    },
                },
            },
        },
    }
}

pub open spec fn scan_entries_json(
    t: Seq<char>,
    i: int,
    acc: Seq<crate::models::FeatureView>,
) -> Option<(int, Seq<crate::models::FeatureView>)>
    decreases t.len() - i,
{
    match parse_entry_json(t, i) {
        None => None,
        Some((j, e)) => {
            if j <= i || j > t.len() {
                None
            } else if j < t.len() && t[j] == ',' {
                scan_entries_json(t, j + 1, acc.push(e))
            } else {
                Some((j, acc.push(e)))
            }
        },
    }
}

/// Parse a whole canonical JSON catalog text; `None` on any deviation.
pub open spec fn parse_json(t: Seq<char>) -> Option<Seq<crate::models::FeatureView>> {
    match expect_lit(t, 0, "{\"features\":["@) {
        None => None,
        Some(i) => {
            if expect_lit(t, i, "]}"@) == Some(t.len() as int) {
                Some(Seq::<crate::models::FeatureView>::empty())
            } else {
                match scan_entries_json(t, i, Seq::<crate::models::FeatureView>::empty()) {
                    None => None,
                    Some((j, es)) => {
                        if expect_lit(t, j, "]}"@) == Some(t.len() as int) {
                            Some(es)
                        } else {
                            None
                        }
                    },
                }
            }
        },
    }
}

// ---------------------------------------------------------------------------
// JSON round trip: parsing a rendering yields the catalog back
// ---------------------------------------------------------------------------

proof fn lemma_render_entry_json_len(e: crate::models::FeatureView)
    ensures
        render_entry_json(e).len() > 0,
{
    reveal(render_entry_json);
}

/// Parsing a rendered entry at its position returns the entry.
#[verifier::rlimit(100)]
proof fn lemma_parse_entry_json(t: Seq<char>, i: int, e: crate::models::FeatureView)
    requires
        0 <= i,
        i + render_entry_json(e).len() <= t.len(),
        crate::time::view_well_formed(e.created),
        t.subrange(i, i + render_entry_json(e).len()) == render_entry_json(e),
    ensures
        parse_entry_json(t, i) == Some(((i + render_entry_json(e).len()), e)),
{
    let a1 = "{\"name\":\""@;
    let s1 = escape_string(e.name);
    let q = seq!['"'];
    let b2 = ",\"feature\":\""@;
    let s2 = escape_string(e.feature);
    let b3 = ",\"algorithm\":\""@;
    let aq = algo_ident_q(e.algorithm);
    let b4 = ",\"created\":\""@;
    let ts = render_ts(e.created);
    let b5 = "\",\"hint\":"@;
    let h = render_hint_json(e.hint);
    let b6 = "}"@;
    let whole = render_entry_json(e);
    reveal(render_entry_json);
    let r1 = s1 + (q + (b2 + (s2 + (q + (b3 + (aq + (b4 + (ts + (b5 + (h + b6))))))))));
    let r2 = q + (b2 + (s2 + (q + (b3 + (aq + (b4 + (ts + (b5 + (h + b6)))))))));
    let r3 = b2 + (s2 + (q + (b3 + (aq + (b4 + (ts + (b5 + (h + b6))))))));
    let r4 = s2 + (q + (b3 + (aq + (b4 + (ts + (b5 + (h + b6)))))));
    let r5 = q + (b3 + (aq + (b4 + (ts + (b5 + (h + b6))))));
    let r6 = b3 + (aq + (b4 + (ts + (b5 + (h + b6)))));
    let r7 = aq + (b4 + (ts + (b5 + (h + b6))));
    let r8 = b4 + (ts + (b5 + (h + b6)));
    let r9 = ts + (b5 + (h + b6));
    let r10 = b5 + (h + b6);
    let r11 = h + b6;
    assert(whole == a1 + r1);
    lemma_split_subrange(t, i, a1, r1);
    let i1 = i + a1.len();
    assert(expect_lit(t, i, a1) == Some(i1));
    lemma_split_subrange(t, i1, s1, r2);
    assert(t[i1 + s1.len() + 0] == t.subrange(i1 + s1.len(), i1 + s1.len() + r2.len())[0]);
    assert(t[i1 + s1.len()] == '"');
    lemma_scan_escaped(t, i1, e.name, Seq::<char>::empty());
    assert(Seq::<char>::empty() + e.name =~= e.name);
    let i2 = i1 + s1.len() + 1;
    assert(scan_string(t, i1, Seq::<char>::empty()) == Some((i2, e.name)));
    assert(t.subrange(i1 + s1.len(), i1 + s1.len() + r2.len()) == r2);
    lemma_split_subrange(t, i1 + s1.len(), q, r3);
    assert(t.subrange(i2, i2 + r3.len()) == r3);
    lemma_split_subrange(t, i2, b2, r4);
    let i3 = i2 + b2.len();
    assert(expect_lit(t, i2, b2) == Some(i3));
    lemma_split_subrange(t, i3, s2, r5);
    assert(t[i3 + s2.len() + 0] == t.subrange(i3 + s2.len(), i3 + s2.len() + r5.len())[0]);
    assert(t[i3 + s2.len()] == '"');
    lemma_scan_escaped(t, i3, e.feature, Seq::<char>::empty());
    assert(Seq::<char>::empty() + e.feature =~= e.feature);
    let i4 = i3 + s2.len() + 1;
    assert(scan_string(t, i3, Seq::<char>::empty()) == Some((i4, e.feature)));
    lemma_split_subrange(t, i3 + s2.len(), q, r6);
    assert(t.subrange(i4, i4 + r6.len()) == r6);
    lemma_split_subrange(t, i4, b3, r7);
    let i5 = i4 + b3.len();
    assert(expect_lit(t, i4, b3) == Some(i5));
    lemma_split_subrange(t, i5, aq, r8);
    lemma_parse_algo(t, i5, e.algorithm);
    let i6 = i5 + aq.len();
    assert(parse_algo(t, i5) == Some((i6, e.algorithm)));
    lemma_split_subrange(t, i6, b4, r9);
    let i7 = i6 + b4.len();
    assert(expect_lit(t, i6, b4) == Some(i7));
    assert(ts.len() == 20);
    lemma_split_subrange(t, i7, ts, r10);
    lemma_parse_render_ts(t, i7, e.created);
    assert(parse_ts(t, i7) == Some(e.created));
    lemma_split_subrange(t, i7 + 20, b5, r11);
    let i8 = i7 + 20 + b5.len();
    assert(expect_lit(t, i7 + 20, b5) == Some(i8));
    lemma_split_subrange(t, i8, h, b6);
    let i9 = i8 + h.len();
    reveal_strlit("null");
    reveal_strlit("}");
    assert(b6.len() == 1);
    match e.hint {
        None => {
            assert(h == "null"@);
            assert(t[i8 + 0] == t.subrange(i8, i8 + h.len())[0]);
            assert(t[i8] == 'n');
            assert(expect_lit(t, i8, "null"@) == Some(i9));
            assert(parse_hint_json(t, i8) == Some((i9, None::<Seq<char>>)));
        },
        Some(hs) => {
            let es = escape_string(hs);
            assert(h == q + (es + q));
            lemma_split_subrange(t, i8, q, es + q);
            assert(t[i8 + 0] == t.subrange(i8, i8 + 1)[0]);
            assert(t[i8] == '"');
            assert(!(t[i8] == 'n'));
            assert(expect_lit(t, i8, q) == Some(i8 + 1));
            lemma_split_subrange(t, i8 + 1, es, q);
            assert(t[i8 + 1 + es.len() + 0] == t.subrange(
                i8 + 1 + es.len(),
                i8 + 1 + es.len() + 1,
            )[0]);
            assert(t[i8 + 1 + es.len()] == '"');
            lemma_scan_escaped(t, i8 + 1, hs, Seq::<char>::empty());
            assert(Seq::<char>::empty() + hs =~= hs);
            assert(scan_string(t, i8 + 1, Seq::<char>::empty()) == Some((i9, hs)));
            assert(parse_hint_json(t, i8) == Some((i9, Some(hs))));
        },
    }
    assert(t.subrange(i9, i9 + 1) == b6);
    assert(expect_lit(t, i9, b6) == Some(i9 + 1));
    assert(i9 + 1 == i + whole.len());
}

/// Scanning rendered entries that are followed by `]` returns them all.
proof fn lemma_scan_entries_json(
    t: Seq<char>,
    i: int,
    sv: Seq<crate::models::FeatureView>,
    acc: Seq<crate::models::FeatureView>,
)
    requires
        0 <= i,
        sv.len() > 0,
        store_wf(sv),
        i + render_entries_json(sv).len() < t.len(),
        t.subrange(i, i + render_entries_json(sv).len()) == render_entries_json(sv),
        t[i + render_entries_json(sv).len()] == ']',
    ensures
        scan_entries_json(t, i, acc) == Some(
            ((i + render_entries_json(sv).len()), acc + sv),
        ),
    decreases sv.len(), 1int,
{
    if sv.len() == 1 {
        let e = sv[0];
        let re = render_entry_json(e);
        assert(render_entries_json(sv) == re);
        lemma_render_entry_json_len(e);
        lemma_parse_entry_json(t, i, e);
        let j = i + re.len();
        assert(t[j] == ']');
        assert(!(t[j] == ','));
        assert(acc.push(e) =~= acc + sv);
    } else {
        lemma_scan_entries_json_step(t, i, sv, acc);
    }
}

/// The inductive step of `lemma_scan_entries_json`.
#[verifier::rlimit(100)]
proof fn lemma_scan_entries_json_step(
    t: Seq<char>,
    i: int,
    sv: Seq<crate::models::FeatureView>,
    acc: Seq<crate::models::FeatureView>,
)
    requires
        0 <= i,
        sv.len() > 1,
        store_wf(sv),
        i + render_entries_json(sv).len() < t.len(),
        t.subrange(i, i + render_entries_json(sv).len()) == render_entries_json(sv),
        t[i + render_entries_json(sv).len()] == ']',
    ensures
        scan_entries_json(t, i, acc) == Some(
            ((i + render_entries_json(sv).len()), acc + sv),
        ),
    decreases sv.len(), 0int,
{
    let e = sv[0];
    let re = render_entry_json(e);
    let whole = render_entries_json(sv);
    let rest = render_entries_json(sv.skip(1));
    assert(whole == re + (seq![','] + rest));
    lemma_split_subrange(t, i, re, seq![','] + rest);
    lemma_render_entry_json_len(e);
    lemma_parse_entry_json(t, i, e);
    let j = i + re.len();
    lemma_split_subrange(t, j, seq![','], rest);
    assert(t[j + 0] == t.subrange(j, j + 1)[0]);
    assert(t[j] == ',');
    assert(store_wf(sv.skip(1))) by {
        assert(forall|k: int|
            0 <= k < sv.skip(1).len() ==> #[trigger] sv.skip(1)[k] == sv[k + 1]);
    }
    lemma_scan_entries_json(t, j + 1, sv.skip(1), acc.push(e));
    assert(acc.push(e) + sv.skip(1) =~= acc + sv);
    assert(j + 1 + rest.len() == i + whole.len());
}

/// Parsing the canonical JSON rendering of a well-formed catalog returns it.
#[verifier::rlimit(100)]
pub proof fn lemma_parse_render_json(sv: Seq<crate::models::FeatureView>)
    requires
        store_wf(sv),
    ensures
        parse_json(render_json(sv)) == Some(sv),
{
    let jo = "{\"features\":["@;
    let jc = "]}"@;
    let es = render_entries_json(sv);
    let t = render_json(sv);
    assert(t == jo + (es + jc));
    assert(t.subrange(0, t.len() as int) =~= t);
    lemma_split_subrange(t, 0, jo, es + jc);
    let i = jo.len() as int;
    assert(expect_lit(t, 0, jo) == Some(i));
    lemma_split_subrange(t, i, es, jc);
    reveal_strlit("]}");
    reveal_strlit("{\"name\":\"");
    assert(jc.len() == 2);
    if sv.len() == 0 {
        assert(es.len() == 0);
        assert(t.subrange(i, i + 2) == jc);
        assert(expect_lit(t, i, jc) == Some(i + 2));
        assert(i + 2 == t.len());
        assert(parse_json(t) == Some(Seq::<crate::models::FeatureView>::empty()));
        assert(sv =~= Seq::<crate::models::FeatureView>::empty());
    } else {
        let j = i + es.len();
        assert(t[j + 0] == t.subrange(j, j + 2)[0]);
        assert(t[j] == ']');
        lemma_scan_entries_json(t, i, sv, Seq::<crate::models::FeatureView>::empty());
        assert(Seq::<crate::models::FeatureView>::empty() + sv =~= sv);
        assert(expect_lit(t, j, jc) == Some(t.len() as int));
        // The empty-catalog branch is not taken: the first entry starts with
        // `{`, not `]`.
        let a1 = "{\"name\":\""@;
        reveal(render_entry_json);
        assert(render_entries_json(sv)[0] == render_entry_json(sv[0])[0]);
        assert(render_entry_json(sv[0])[0] == a1[0]);
        assert(t[i + 0] == t.subrange(i, i + es.len())[0]);
        assert(t[i] == '{');
        if expect_lit(t, i, jc) == Some(t.len() as int) {
            assert(t.subrange(i, i + 2) == jc);
            assert(t[i + 0] == t.subrange(i, i + 2)[0]);
            assert(false);
        }
    }
}

// ---------------------------------------------------------------------------
// JSON rendering and parsing, executable
// ---------------------------------------------------------------------------

fn append_algo_q(out: &mut Vec<char>, a: crate::crypto::Algorithm)
    ensures
        final(out)@ == old(out)@ + algo_ident_q(a),
{
    match a {
        crate::crypto::Algorithm::HmacSha256 => append_lit(out, "HmacSha256"),
        crate::crypto::Algorithm::Argon2i => append_lit(out, "Argon2i"),
        crate::crypto::Algorithm::Argon2id => append_lit(out, "Argon2id"),
        crate::crypto::Algorithm::Pbkdf2 => append_lit(out, "Pbkdf2"),
        crate::crypto::Algorithm::Scrypt => append_lit(out, "Scrypt"),
    }
    out.push('"');
    proof {
        assert(out@ =~= old(out)@ + algo_ident_q(a));
    }
}

/// Append one entry's canonical JSON object.
#[verifier::rlimit(100)]
pub(crate) fn render_entry_append(out: &mut Vec<char>, f: &crate::models::Feature)
    ensures
        final(out)@ == old(out)@ + render_entry_json(f@),
{
    let ghost p0 = old(out)@;
    append_lit(out, "{\"name\":\"");
    escape_append(out, f.name.as_str());
    out.push('"');
    proof {
        assert(out@ =~= p0 + "{\"name\":\""@ + escape_string(f.name@) + seq!['"']);
    }
    append_lit(out, ",\"feature\":\"");
    escape_append(out, f.feature.as_str());
    out.push('"');
    proof {
        assert(out@ =~= p0 + "{\"name\":\""@ + escape_string(f.name@) + seq!['"']
            + ",\"feature\":\""@ + escape_string(f.feature@) + seq!['"']);
    }
    append_lit(out, ",\"algorithm\":\"");
    append_algo_q(out, f.algorithm);
    append_lit(out, ",\"created\":\"");
    render_ts_append(out, &f.created);
    append_lit(out, "\",\"hint\":");
    proof {
        assert(out@ =~= p0 + "{\"name\":\""@ + escape_string(f.name@) + seq!['"']
            + ",\"feature\":\""@ + escape_string(f.feature@) + seq!['"'] + ",\"algorithm\":\""@
            + algo_ident_q(f.algorithm) + ",\"created\":\""@ + render_ts(f.created@)
            + "\",\"hint\":"@);
    }
    match &f.hint {
        None => append_lit(out, "null"),
        Some(h) => {
            out.push('"');
            escape_append(out, h.as_str());
            out.push('"');
        },
    }
    out.push('}');
    proof {
        reveal(render_entry_json);
        reveal_strlit("}");
        assert("}"@ =~= seq!['}']);
        assert(render_hint_json(f@.hint) == match f@.hint {
            None => "null"@,
            Some(s) => seq!['"'] + (escape_string(s) + seq!['"']),
        });
        assert(out@ =~= p0 + render_entry_json(f@));
    }
}

proof fn lemma_entries_push(a: Seq<crate::models::FeatureView>, e: crate::models::FeatureView)
    ensures
        render_entries_json(a.push(e)) == if a.len() == 0 {
            render_entry_json(e)
        } else {
            render_entries_json(a) + (seq![','] + render_entry_json(e))
        },
    decreases a.len(),
{
    let ap = a.push(e);
    if a.len() == 0 {
        assert(ap.len() == 1);
        assert(ap[0] == e);
    } else {
        assert(ap.len() >= 2);
        assert(ap[0] == a[0]);
        assert(ap.skip(1) =~= a.skip(1).push(e));
        lemma_entries_push(a.skip(1), e);
        if a.len() == 1 {
            assert(a.skip(1).len() == 0);
            assert(render_entries_json(a) == render_entry_json(a[0]));
            assert(render_entries_json(ap) =~= render_entries_json(a) + (seq![',']
                + render_entry_json(e)));
        } else {
            assert(render_entries_json(ap) =~= render_entries_json(a) + (seq![',']
                + render_entry_json(e)));
        }
    }
}

/// Render the catalog as canonical JSON text.
pub(crate) fn render_json_exec(store: &crate::models::FeatureStore) -> (r: String)
    ensures
        r@ == render_json(store@),
{
    let mut out: Vec<char> = Vec::new();
    append_lit(&mut out, "{\"features\":[");
    let n = store.features.len();
    proof {
        assert(store@.len() == n as int);
    }
    let mut k: usize = 0;
    while k < n
        invariant
            n == store.features.len(),
            store@.len() == n as int,
            0 <= k <= n,
            out@ == "{\"features\":["@ + render_entries_json(store@.take(k as int)),
        decreases n - k,
    {
        let ghost prev = out@;
        if k > 0 {
            out.push(',');
        }
        render_entry_append(&mut out, &store.features[k]);
        proof {
            assert(store@[k as int] == store.features@[k as int]@);
            assert(store@.take(k + 1) =~= store@.take(k as int).push(store@[k as int]));
            lemma_entries_push(store@.take(k as int), store@[k as int]);
            if k == 0 {
                assert(out@ =~= "{\"features\":["@ + render_entries_json(store@.take(k + 1)));
            } else {
                assert(out@ =~= "{\"features\":["@ + render_entries_json(store@.take(k + 1)));
            }
        }
        k = k + 1;
    }
    append_lit(&mut out, "]}");
    proof {
        assert(store@.take(n as int) =~= store@);
        assert(out@ =~= render_json(store@));
    }
    chars_to_string(out)
}

fn parse_hint_exec(t: &str, i: usize) -> (r: Option<(usize, Option<String>)>)
    ensures
        r is Some ==> ({
            let (j2, h2) = r->0;
            &&& parse_hint_json(t@, i as int) == Some(
                ((j2 as int), match h2 {
                    None => None::<Seq<char>>,
                    Some(hs) => Some(hs@),
                }),
            )
            &&& i < j2 <= t@.len()
        }),
        r is None ==> parse_hint_json(t@, i as int) is None,
{
    proof {
        reveal_strlit("\"");
        assert("\""@ =~= seq!['"']);
        reveal_strlit("null");
        assert("null"@.len() == 4);
    }
    let n = t.unicode_len();
    if i < n && t.get_char(i) == 'n' {
        match expect_lit_exec(t, i, "null") {
            None => None,
            Some(j) => Some((j, None)),
        }
    } else {
        match expect_lit_exec(t, i, "\"") {
            None => None,
            Some(j) => {
                match scan_string_exec(t, j) {
                    None => None,
                    Some((j2, h)) => {
                        let hs = chars_to_string(h);
                        Some((j2, Some(hs)))
                    },
                }
            },
        }
    }
}

#[verifier::rlimit(100)]
fn parse_entry_exec(t: &str, i: usize) -> (r: Option<(usize, crate::models::Feature)>)
    ensures
        r is Some ==> ({
            let (j2, f2) = r->0;
            &&& parse_entry_json(t@, i as int) == Some(((j2 as int), f2@))
            &&& i < j2 <= t@.len()
        }),
        r is None ==> parse_entry_json(t@, i as int) is None,
{
    let n = t.unicode_len();
    let i1 = match expect_lit_exec(t, i, "{\"name\":\"") {
        None => {
            return None;
        },
        Some(x) => x,
    };
    let (i2, name_v) = match scan_string_exec(t, i1) {
        None => {
            return None;
        },
        Some(x) => x,
    };
    let i3 = match expect_lit_exec(t, i2, ",\"feature\":\"") {
        None => {
            return None;
        },
        Some(x) => x,
    };
    let (i4, feat_v) = match scan_string_exec(t, i3) {
        None => {
            return None;
        },
        Some(x) => x,
    };
    let i5 = match expect_lit_exec(t, i4, ",\"algorithm\":\"") {
        None => {
            return None;
        },
        Some(x) => x,
    };
    let (i6, algo) = match parse_algo_exec(t, i5) {
        None => {
            return None;
        },
        Some(x) => x,
    };
    let i7 = match expect_lit_exec(t, i6, ",\"created\":\"") {
        None => {
            return None;
        },
        Some(x) => x,
    };
    let ts = match parse_ts_exec(t, i7) {
        None => {
            return None;
        },
        Some(x) => x,
    };
    proof {
        assert(i7 + 20 <= n);
    }
    let i8 = match expect_lit_exec(t, i7 + 20, "\",\"hint\":") {
        None => {
            return None;
        },
        Some(x) => x,
    };
    let (i9, hint) = match parse_hint_exec(t, i8) {
        None => {
            return None;
        },
        Some(x) => x,
    };
    let end = match expect_lit_exec(t, i9, "}") {
        None => {
            return None;
        },
        Some(x) => x,
    };
    let name_s = chars_to_string(name_v);
    let feat_s = chars_to_string(feat_v);
    let f = crate::models::Feature::with_created(name_s, feat_s, algo, hint, ts);
    Some((end, f))
}

fn scan_entries_exec(t: &str, i: usize) -> (r: Option<(usize, Vec<crate::models::Feature>)>)
    ensures
        r is Some ==> ({
            let (j2, fs) = r->0;
            &&& scan_entries_json(t@, i as int, Seq::<crate::models::FeatureView>::empty())
                == Some(((j2 as int), fs@.map_values(|f: crate::models::Feature| f@)))
            &&& j2 <= t@.len()
        }),
        r is None ==> scan_entries_json(t@, i as int, Seq::<crate::models::FeatureView>::empty())
            is None,
{
    let n = t.unicode_len();
    let mut acc: Vec<crate::models::Feature> = Vec::new();
    let mut j = i;
    proof {
        assert(acc@.map_values(|f: crate::models::Feature| f@) =~= Seq::<
            crate::models::FeatureView,
        >::empty());
    }
    loop
        invariant
            n == t@.len(),
            scan_entries_json(t@, i as int, Seq::<crate::models::FeatureView>::empty())
                == scan_entries_json(t@, j as int, acc@.map_values(|f: crate::models::Feature| f@)),
        decreases n - j,
    {
        let ghost accv = acc@.map_values(|f: crate::models::Feature| f@);
        match parse_entry_exec(t, j) {
            None => {
                return None;
            },
            Some((j2, f)) => {
                acc.push(f);
                proof {
                    assert(acc@.map_values(|f: crate::models::Feature| f@) =~= accv.push(f@));
                }
                if j2 < n {
                    let c = t.get_char(j2);
                    if c == ',' {
                        j = j2 + 1;
                    } else {
                        return Some((j2, acc));
                    }
                } else {
                    return Some((j2, acc));
                }
            },
        }
    }
}

/// Parse a canonical JSON catalog text in executable code.
pub(crate) fn parse_json_exec(t: &str) -> (r: Option<crate::models::FeatureStore>)
    ensures
        r is Some <==> parse_json(t@) is Some,
        r is Some ==> r->0@ == parse_json(t@)->0,
{
    let n = t.unicode_len();
    let i = match expect_lit_exec(t, 0, "{\"features\":[") {
        None => {
            return None;
        },
        Some(x) => x,
    };
    if let Some(j) = expect_lit_exec(t, i, "]}") {
        if j == n {
            let store = crate::models::FeatureStore::new();
            return Some(store);
        }
    }
    match scan_entries_exec(t, i) {
        None => None,
        Some((j, feats)) => {
            match expect_lit_exec(t, j, "]}") {
                None => None,
                Some(j2) => {
                    if j2 == n {
                        let store = crate::models::FeatureStore { features: feats };
                        Some(store)
                    } else {
                        None
                    }
                },
            }
        },
    }
}

// ---------------------------------------------------------------------------
// TOML rendering of the catalog
// ---------------------------------------------------------------------------

/// The hint line, present only when there is a hint.
pub open spec fn render_hint_toml(h: Option<Seq<char>>) -> Seq<char> {
    match h {
        None => Seq::<char>::empty(),
        Some(s) => "hint = \""@ + (escape_string(s) + seq!['"', '\n']),
    }
}

/// One catalog entry as a canonical `[[features]]` table.
#[verifier::opaque]
pub open spec fn render_block_toml(e: crate::models::FeatureView) -> Seq<char> {
    "[[features]]\nname = \""@ + (escape_string(e.name) + (seq!['"'] + ("\nfeature = \""@ + (
    escape_string(e.feature) + (seq!['"'] + ("\nalgorithm = \""@ + (algo_ident_q(e.algorithm) + (
    "\ncreated = \""@ + (render_ts(e.created) + (seq!['"', '\n'] + render_hint_toml(e.hint)))))))))))
}

pub open spec fn render_blocks_toml(sv: Seq<crate::models::FeatureView>) -> Seq<char>
    decreases sv.len(),
{
    if sv.len() == 0 {
        Seq::<char>::empty()
    } else {
        render_block_toml(sv[0]) + render_blocks_toml(sv.skip(1))
    }
}

/// The whole catalog as one canonical TOML text.
pub open spec fn render_toml(sv: Seq<crate::models::FeatureView>) -> Seq<char> {
    if sv.len() == 0 {
        "features = []\n"@
    } else {
        render_blocks_toml(sv)
    }
}

// ---------------------------------------------------------------------------
// TOML parsing
// ---------------------------------------------------------------------------

pub open spec fn parse_hint_toml(t: Seq<char>, i: int) -> Option<(int, Option<Seq<char>>)> {
    if 0 <= i < t.len() && t[i] == 'h' {
        match expect_lit(t, i, "hint = \""@) {
            None => None,
            Some(j) => match scan_string(t, j, Seq::<char>::empty()) {
                None => None,
                Some((j2, h)) => match expect_lit(t, j2, seq!['\n']) {
                    None => None,
                    Some(j3) => Some((j3, Some(h))),
                },
            },
        }
    } else {
        Some((i, None))
    }
}

pub open spec fn parse_block_toml(t: Seq<char>, i: int) -> Option<(int, crate::models::FeatureView)> {
    match expect_lit(t, i, "[[features]]\nname = \""@) {
        None => None,
        Some(i1) => match scan_string(t, i1, Seq::<char>::empty()) {
            None => None,
            Some((i2, name)) => match expect_lit(t, i2, "\nfeature = \""@) {
                None => None,
                Some(i3) => match scan_string(t, i3, Seq::<char>::empty()) {
                    None => None,
                    Some((i4, feat)) => match expect_lit(t, i4, "\nalgorithm = \""@) {
                        None => None,
                        Some(i5) => match parse_algo(t, i5) {
                            None => None,
                            Some((i6, algo)) => match expect_lit(t, i6, "\ncreated = \""@) {
                                None => None,
                                Some(i7) => match parse_ts(t, i7) {
                                    None => None,
                                    Some(tv) => match expect_lit(t, i7 + 20, seq!['"', '\n']) {
                                        None => None,
                                        Some(i8) => match parse_hint_toml(t, i8) {
                                            None => None,
                                            Some((i9, hint)) => Some(
                                                (
                                                    i9,
                                                    crate::models::FeatureView {
                                                        name,
                                                        feature: feat,
                                                        algorithm: algo,
                                                        created: tv,
                                                        hint,
                                                    },
                                                ),
                                            ),
                                        },
                                    },
                                },
                            },
                        },
                    },
                },
            },
        },
    }
}

pub open spec fn scan_blocks_toml(
    t: Seq<char>,
    i: int,
    acc: Seq<crate::models::FeatureView>,
) -> Option<(int, Seq<crate::models::FeatureView>)>
    decreases t.len() - i,
{
    match parse_block_toml(t, i) {
        None => None,
        Some((j, e)) => {
            if j <= i || j > t.len() {
                None
            } else if j == t.len() {
                Some((j, acc.push(e)))
            } else {
                scan_blocks_toml(t, j, acc.push(e))
            }
        },
    }
}

/// Parse a whole canonical TOML catalog text; `None` on any deviation.
pub open spec fn parse_toml(t: Seq<char>) -> Option<Seq<crate::models::FeatureView>> {
    if expect_lit(t, 0, "features = []\n"@) == Some(t.len() as int) {
        Some(Seq::<crate::models::FeatureView>::empty())
    } else {
        match scan_blocks_toml(t, 0, Seq::<crate::models::FeatureView>::empty()) {
            None => None,
            Some((j, es)) => Some(es),
        }
    }
}

// ---------------------------------------------------------------------------
// TOML round trip
// ---------------------------------------------------------------------------

proof fn lemma_render_block_toml_first(e: crate::models::FeatureView)
    ensures
        render_block_toml(e).len() > 0,
        render_block_toml(e)[0] == '[',
{
    reveal(render_block_toml);
    reveal_strlit("[[features]]\nname = \"");
    let t1 = "[[features]]\nname = \""@;
    assert(t1.len() > 0 && t1[0] == '[');
    assert(render_block_toml(e)[0] == t1[0]);
}

/// Parsing a rendered block at its position returns the entry; the text
/// after the block must be a block start or the end, so the absent hint is
/// not misread.
#[verifier::rlimit(100)]
proof fn lemma_parse_block_toml(t: Seq<char>, i: int, e: crate::models::FeatureView)
    requires
        0 <= i,
        i + render_block_toml(e).len() <= t.len(),
        crate::time::view_well_formed(e.created),
        t.subrange(i, i + render_block_toml(e).len()) == render_block_toml(e),
        i + render_block_toml(e).len() == t.len() || t[i + render_block_toml(e).len()] == '[',
    ensures
        parse_block_toml(t, i) == Some(((i + render_block_toml(e).len()), e)),
{
    let t1 = "[[features]]\nname = \""@;
    let s1 = escape_string(e.name);
    let q = seq!['"'];
    let t2 = "\nfeature = \""@;
    let s2 = escape_string(e.feature);
    let t3 = "\nalgorithm = \""@;
    let aq = algo_ident_q(e.algorithm);
    let t4 = "\ncreated = \""@;
    let ts = render_ts(e.created);
    let qn = seq!['"', '\n'];
    let h = render_hint_toml(e.hint);
    let whole = render_block_toml(e);
    reveal(render_block_toml);
    let r1 = s1 + (q + (t2 + (s2 + (q + (t3 + (aq + (t4 + (ts + (qn + h)))))))));
    let r2 = q + (t2 + (s2 + (q + (t3 + (aq + (t4 + (ts + (qn + h))))))));
    let r3 = t2 + (s2 + (q + (t3 + (aq + (t4 + (ts + (qn + h)))))));
    let r4 = s2 + (q + (t3 + (aq + (t4 + (ts + (qn + h))))));
    let r5 = q + (t3 + (aq + (t4 + (ts + (qn + h)))));
    let r6 = t3 + (aq + (t4 + (ts + (qn + h))));
    let r7 = aq + (t4 + (ts + (qn + h)));
    let r8 = t4 + (ts + (qn + h));
    let r9 = ts + (qn + h);
    let r10 = qn + h;
    assert(whole == t1 + r1);
    lemma_split_subrange(t, i, t1, r1);
    let i1 = i + t1.len();
    assert(expect_lit(t, i, t1) == Some(i1));
    lemma_split_subrange(t, i1, s1, r2);
    assert(t[i1 + s1.len() + 0] == t.subrange(i1 + s1.len(), i1 + s1.len() + r2.len())[0]);
    assert(t[i1 + s1.len()] == '"');
    lemma_scan_escaped(t, i1, e.name, Seq::<char>::empty());
    assert(Seq::<char>::empty() + e.name =~= e.name);
    let i2 = i1 + s1.len() + 1;
    lemma_split_subrange(t, i1 + s1.len(), q, r3);
    assert(t.subrange(i2, i2 + r3.len()) == r3);
    lemma_split_subrange(t, i2, t2, r4);
    let i3 = i2 + t2.len();
    assert(expect_lit(t, i2, t2) == Some(i3));
    lemma_split_subrange(t, i3, s2, r5);
    assert(t[i3 + s2.len() + 0] == t.subrange(i3 + s2.len(), i3 + s2.len() + r5.len())[0]);
    assert(t[i3 + s2.len()] == '"');
    lemma_scan_escaped(t, i3, e.feature, Seq::<char>::empty());
    assert(Seq::<char>::empty() + e.feature =~= e.feature);
    let i4 = i3 + s2.len() + 1;
    lemma_split_subrange(t, i3 + s2.len(), q, r6);
    assert(t.subrange(i4, i4 + r6.len()) == r6);
    lemma_split_subrange(t, i4, t3, r7);
    let i5 = i4 + t3.len();
    assert(expect_lit(t, i4, t3) == Some(i5));
    lemma_split_subrange(t, i5, aq, r8);
    lemma_parse_algo(t, i5, e.algorithm);
    let i6 = i5 + aq.len();
    lemma_split_subrange(t, i6, t4, r9);
    let i7 = i6 + t4.len();
    assert(expect_lit(t, i6, t4) == Some(i7));
    assert(ts.len() == 20);
    lemma_split_subrange(t, i7, ts, r10);
    lemma_parse_render_ts(t, i7, e.created);
    lemma_split_subrange(t, i7 + 20, qn, h);
    let i8 = i7 + 20 + 2;
    assert(expect_lit(t, i7 + 20, qn) == Some(i8));
    reveal_strlit("hint = \"");
    match e.hint {
        None => {
            assert(h.len() == 0);
            assert(i8 == i + whole.len());
            if i8 < t.len() {
                assert(t[i8] == '[');
                assert(!(t[i8] == 'h'));
            }
            assert(parse_hint_toml(t, i8) == Some((i8, None::<Seq<char>>)));
        },
        Some(hs) => {
            let h1 = "hint = \""@;
            let es = escape_string(hs);
            assert(h == h1 + (es + qn));
            lemma_split_subrange(t, i8, h1, es + qn);
            assert(t[i8 + 0] == t.subrange(i8, i8 + h1.len())[0]);
            assert(h1.len() > 0 && h1[0] == 'h');
            assert(t[i8] == 'h');
            let i9 = i8 + h1.len();
            assert(expect_lit(t, i8, h1) == Some(i9));
            lemma_split_subrange(t, i9, es, qn);
            assert(t[i9 + es.len() + 0] == t.subrange(i9 + es.len(), i9 + es.len() + 2)[0]);
            assert(t[i9 + es.len()] == '"');
            lemma_scan_escaped(t, i9, hs, Seq::<char>::empty());
            assert(Seq::<char>::empty() + hs =~= hs);
            let i10 = i9 + es.len() + 1;
            assert(qn =~= seq!['"'] + seq!['\n']);
            lemma_split_subrange(t, i9 + es.len(), seq!['"'], seq!['\n']);
            assert(t.subrange(i10, i10 + 1) == seq!['\n']);
            assert(expect_lit(t, i10, seq!['\n']) == Some(i10 + 1));
            assert(parse_hint_toml(t, i8) == Some(((i10 + 1), Some(hs))));
            assert(i10 + 1 == i + whole.len());
        },
    }
}

/// Scanning rendered blocks that reach the end of the text returns them all.
proof fn lemma_scan_blocks_toml(
    t: Seq<char>,
    i: int,
    sv: Seq<crate::models::FeatureView>,
    acc: Seq<crate::models::FeatureView>,
)
    requires
        0 <= i,
        sv.len() > 0,
        store_wf(sv),
        i + render_blocks_toml(sv).len() == t.len(),
        t.subrange(i, i + render_blocks_toml(sv).len()) == render_blocks_toml(sv),
    ensures
        scan_blocks_toml(t, i, acc) == Some(((t.len() as int), acc + sv)),
    decreases sv.len(), 1int,
{
    if sv.len() == 1 {
        let e = sv[0];
        let rb = render_block_toml(e);
        assert(render_blocks_toml(sv) =~= rb) by {
            assert(render_blocks_toml(sv.skip(1)).len() == 0);
            assert(render_blocks_toml(sv) == rb + render_blocks_toml(sv.skip(1)));
        }
        lemma_render_block_toml_first(e);
        lemma_parse_block_toml(t, i, e);
        let j = i + rb.len();
        assert(j == t.len());
        assert(acc.push(e) =~= acc + sv);
    } else {
        lemma_scan_blocks_toml_step(t, i, sv, acc);
    }
}

/// The inductive step of `lemma_scan_blocks_toml`.
#[verifier::rlimit(100)]
proof fn lemma_scan_blocks_toml_step(
    t: Seq<char>,
    i: int,
    sv: Seq<crate::models::FeatureView>,
    acc: Seq<crate::models::FeatureView>,
)
    requires
        0 <= i,
        sv.len() > 1,
        store_wf(sv),
        i + render_blocks_toml(sv).len() == t.len(),
        t.subrange(i, i + render_blocks_toml(sv).len()) == render_blocks_toml(sv),
    ensures
        scan_blocks_toml(t, i, acc) == Some(((t.len() as int), acc + sv)),
    decreases sv.len(), 0int,
{
    let e = sv[0];
    let rb = render_block_toml(e);
    let whole = render_blocks_toml(sv);
    let rest = render_blocks_toml(sv.skip(1));
    assert(whole == rb + rest);
    lemma_split_subrange(t, i, rb, rest);
    let j = i + rb.len();
    assert(rest.len() > 0) by {
        assert(render_blocks_toml(sv.skip(1)) == render_block_toml(sv.skip(1)[0])
            + render_blocks_toml(sv.skip(1).skip(1)));
        lemma_render_block_toml_first(sv.skip(1)[0]);
    }
    assert(t[j + 0] == t.subrange(j, j + rest.len())[0]);
    assert(rest[0] == render_block_toml(sv.skip(1)[0])[0]) by {
        assert(render_blocks_toml(sv.skip(1)) == render_block_toml(sv.skip(1)[0])
            + render_blocks_toml(sv.skip(1).skip(1)));
        lemma_render_block_toml_first(sv.skip(1)[0]);
    }
    assert(t[j] == '[') by {
        lemma_render_block_toml_first(sv.skip(1)[0]);
    }
    lemma_render_block_toml_first(e);
    lemma_parse_block_toml(t, i, e);
    assert(store_wf(sv.skip(1))) by {
        assert(forall|k: int| 0 <= k < sv.skip(1).len() ==> #[trigger] sv.skip(1)[k] == sv[k + 1]);
    }
    lemma_scan_blocks_toml(t, j, sv.skip(1), acc.push(e));
    assert(acc.push(e) + sv.skip(1) =~= acc + sv);
}

/// Parsing the canonical TOML rendering of a well-formed catalog returns it.
#[verifier::rlimit(100)]
pub proof fn lemma_parse_render_toml(sv: Seq<crate::models::FeatureView>)
    requires
        store_wf(sv),
    ensures
        parse_toml(render_toml(sv)) == Some(sv),
{
    let t = render_toml(sv);
    reveal_strlit("features = []\n");
    let em = "features = []\n"@;
    if sv.len() == 0 {
        assert(t == em);
        assert(t.subrange(0, t.len() as int) =~= t);
        assert(expect_lit(t, 0, em) == Some(t.len() as int));
        assert(sv =~= Seq::<crate::models::FeatureView>::empty());
    } else {
        assert(t == render_blocks_toml(sv));
        assert(t.subrange(0, t.len() as int) =~= t);
        assert(render_blocks_toml(sv) == render_block_toml(sv[0]) + render_blocks_toml(sv.skip(1)));
        lemma_render_block_toml_first(sv[0]);
        assert(t[0] == '[');
        assert(em[0] == 'f');
        if expect_lit(t, 0, em) == Some(t.len() as int) {
            assert(t.subrange(0, em.len() as int)[0] == t[0]);
            assert(false);
        }
        lemma_scan_blocks_toml(t, 0, sv, Seq::<crate::models::FeatureView>::empty());
        assert(Seq::<crate::models::FeatureView>::empty() + sv =~= sv);
    }
}

// ---------------------------------------------------------------------------
// Base64 text is no catalog
// ---------------------------------------------------------------------------

/// A text of base64 characters alone is not a JSON catalog: the opening `{`
/// is outside the base64 alphabet.
pub proof fn lemma_base64_text_parses_json_none(t: Seq<char>)
    requires
        forall|i: int| 0 <= i < t.len() ==> crate::crypto::is_base64_char(#[trigger] t[i]),
    ensures
        parse_json(t) is None,
{
    reveal_strlit("{\"features\":[");
    let lit = "{\"features\":["@;
    if expect_lit(t, 0, lit) is Some {
        assert(t.subrange(0, lit.len() as int) == lit);
        assert(t[0] == t.subrange(0, lit.len() as int)[0]);
        assert(t[0] == '{');
        assert(false);
    }
}

/// A text of base64 characters alone is not a TOML catalog: the empty form
/// has a space and every block starts with `[`, both outside the base64
/// alphabet.
pub proof fn lemma_base64_text_parses_toml_none(t: Seq<char>)
    requires
        forall|i: int| 0 <= i < t.len() ==> crate::crypto::is_base64_char(#[trigger] t[i]),
    ensures
        parse_toml(t) is None,
{
    reveal_strlit("features = []\n");
    let em = "features = []\n"@;
    if expect_lit(t, 0, em) == Some(t.len() as int) {
        assert(t.subrange(0, em.len() as int) == em);
        assert(t[8] == t.subrange(0, em.len() as int)[8]);
        assert(em[8] == ' ');
        assert(false);
    }
    reveal_strlit("[[features]]\nname = \"");
    let t1 = "[[features]]\nname = \""@;
    if expect_lit(t, 0, t1) is Some {
        assert(t.subrange(0, t1.len() as int) == t1);
        assert(t[0] == t.subrange(0, t1.len() as int)[0]);
        assert(t[0] == '[');
        assert(false);
    }
    assert(parse_block_toml(t, 0) is None);
    assert(scan_blocks_toml(t, 0, Seq::<crate::models::FeatureView>::empty()) is None);
}

// ---------------------------------------------------------------------------
// TOML rendering and parsing, executable
// ---------------------------------------------------------------------------

/// Append one entry's canonical `[[features]]` table.
#[verifier::rlimit(100)]
pub(crate) fn render_block_append(out: &mut Vec<char>, f: &crate::models::Feature)
    ensures
        final(out)@ == old(out)@ + render_block_toml(f@),
{
    let ghost p0 = old(out)@;
    append_lit(out, "[[features]]\nname = \"");
    escape_append(out, f.name.as_str());
    out.push('"');
    proof {
        assert(out@ =~= p0 + "[[features]]\nname = \""@ + escape_string(f.name@) + seq!['"']);
    }
    append_lit(out, "\nfeature = \"");
    escape_append(out, f.feature.as_str());
    out.push('"');
    proof {
        assert(out@ =~= p0 + "[[features]]\nname = \""@ + escape_string(f.name@) + seq!['"']
            + "\nfeature = \""@ + escape_string(f.feature@) + seq!['"']);
    }
    append_lit(out, "\nalgorithm = \"");
    append_algo_q(out, f.algorithm);
    append_lit(out, "\ncreated = \"");
    render_ts_append(out, &f.created);
    out.push('"');
    out.push('\n');
    proof {
        assert(out@ =~= p0 + "[[features]]\nname = \""@ + escape_string(f.name@) + seq!['"']
            + "\nfeature = \""@ + escape_string(f.feature@) + seq!['"'] + "\nalgorithm = \""@
            + algo_ident_q(f.algorithm) + "\ncreated = \""@ + render_ts(f.created@) + seq![
            '"',
            '\n',
        ]);
    }
    match &f.hint {
        None => (),
        Some(h) => {
            append_lit(out, "hint = \"");
            escape_append(out, h.as_str());
            out.push('"');
            out.push('\n');
        },
    }
    proof {
        reveal(render_block_toml);
        assert(out@ =~= p0 + render_block_toml(f@));
    }
}

proof fn lemma_blocks_push(a: Seq<crate::models::FeatureView>, e: crate::models::FeatureView)
    ensures
        render_blocks_toml(a.push(e)) == render_blocks_toml(a) + render_block_toml(e),
    decreases a.len(),
{
    let ap = a.push(e);
    if a.len() == 0 {
        assert(ap[0] == e);
        assert(ap.skip(1) =~= Seq::<crate::models::FeatureView>::empty());
        assert(render_blocks_toml(ap) == render_block_toml(e) + render_blocks_toml(ap.skip(1)));
        assert(render_blocks_toml(ap.skip(1)).len() == 0);
        assert(render_blocks_toml(a).len() == 0);
        assert(render_blocks_toml(ap) =~= render_blocks_toml(a) + render_block_toml(e));
    } else {
        assert(ap[0] == a[0]);
        assert(ap.skip(1) =~= a.skip(1).push(e));
        lemma_blocks_push(a.skip(1), e);
        assert(render_blocks_toml(ap) == render_block_toml(a[0]) + render_blocks_toml(ap.skip(1)));
        assert(render_blocks_toml(ap.skip(1)) == render_blocks_toml(a.skip(1)) + render_block_toml(
            e,
        ));
        assert(render_blocks_toml(a) == render_block_toml(a[0]) + render_blocks_toml(a.skip(1)));
        assert(render_block_toml(a[0]) + (render_blocks_toml(a.skip(1)) + render_block_toml(e)) =~= (
        render_block_toml(a[0]) + render_blocks_toml(a.skip(1))) + render_block_toml(e));
    }
}

/// Render the catalog as canonical TOML text.
pub(crate) fn render_toml_exec(store: &crate::models::FeatureStore) -> (r: String)
    ensures
        r@ == render_toml(store@),
{
    let n = store.features.len();
    proof {
        assert(store@.len() == n as int);
    }
    let mut out: Vec<char> = Vec::new();
    if n == 0 {
        append_lit(&mut out, "features = []\n");
        proof {
            assert(out@ =~= "features = []\n"@);
        }
        return chars_to_string(out);
    }
    let mut k: usize = 0;
    while k < n
        invariant
            n == store.features.len(),
            store@.len() == n as int,
            0 <= k <= n,
            out@ == render_blocks_toml(store@.take(k as int)),
        decreases n - k,
    {
        render_block_append(&mut out, &store.features[k]);
        proof {
            assert(store@[k as int] == store.features@[k as int]@);
            assert(store@.take(k + 1) =~= store@.take(k as int).push(store@[k as int]));
            lemma_blocks_push(store@.take(k as int), store@[k as int]);
        }
        k = k + 1;
    }
    proof {
        assert(store@.take(n as int) =~= store@);
    }
    chars_to_string(out)
}

fn parse_hint_toml_exec(t: &str, i: usize) -> (r: Option<(usize, Option<String>)>)
    requires
        i <= t@.len(),
    ensures
        r is Some ==> ({
            let (j2, h2) = r->0;
            &&& parse_hint_toml(t@, i as int) == Some(
                ((j2 as int), match h2 {
                    None => None::<Seq<char>>,
                    Some(hs) => Some(hs@),
                }),
            )
            &&& i <= j2 <= t@.len()
        }),
        r is None ==> parse_hint_toml(t@, i as int) is None,
{
    proof {
        reveal_strlit("\n");
        assert("\n"@ =~= seq!['\n']);
    }
    let n = t.unicode_len();
    if i < n && t.get_char(i) == 'h' {
        let j = match expect_lit_exec(t, i, "hint = \"") {
            None => {
                return None;
            },
            Some(x) => x,
        };
        let (j2, h) = match scan_string_exec(t, j) {
            None => {
                return None;
            },
            Some(x) => x,
        };
        let j3 = match expect_lit_exec(t, j2, "\n") {
            None => {
                return None;
            },
            Some(x) => x,
        };
        let hs = chars_to_string(h);
        Some((j3, Some(hs)))
    } else {
        Some((i, None))
    }
}

#[verifier::rlimit(100)]
fn parse_block_toml_exec(t: &str, i: usize) -> (r: Option<(usize, crate::models::Feature)>)
    ensures
        r is Some ==> ({
            let (j2, f2) = r->0;
            &&& parse_block_toml(t@, i as int) == Some(((j2 as int), f2@))
            &&& i < j2 <= t@.len()
        }),
        r is None ==> parse_block_toml(t@, i as int) is None,
{
    proof {
        reveal_strlit("\"\n");
        assert("\"\n"@ =~= seq!['"', '\n']);
    }
    let n = t.unicode_len();
    let i1 = match expect_lit_exec(t, i, "[[features]]\nname = \"") {
        None => {
            return None;
        },
        Some(x) => x,
    };
    let (i2, name_v) = match scan_string_exec(t, i1) {
        None => {
            return None;
        },
        Some(x) => x,
    };
    let i3 = match expect_lit_exec(t, i2, "\nfeature = \"") {
        None => {
            return None;
        },
        Some(x) => x,
    };
    let (i4, feat_v) = match scan_string_exec(t, i3) {
        None => {
            return None;
        },
        Some(x) => x,
    };
    let i5 = match expect_lit_exec(t, i4, "\nalgorithm = \"") {
        None => {
            return None;
        },
        Some(x) => x,
    };
    let (i6, algo) = match parse_algo_exec(t, i5) {
        None => {
            return None;
        },
        Some(x) => x,
    };
    let i7 = match expect_lit_exec(t, i6, "\ncreated = \"") {
        None => {
            return None;
        },
        Some(x) => x,
    };
    let ts = match parse_ts_exec(t, i7) {
        None => {
            return None;
        },
        Some(x) => x,
    };
    proof {
        assert(i7 + 20 <= n);
    }
    let i8 = match expect_lit_exec(t, i7 + 20, "\"\n") {
        None => {
            return None;
        },
        Some(x) => x,
    };
    let (i9, hint) = match parse_hint_toml_exec(t, i8) {
        None => {
            return None;
        },
        Some(x) => x,
    };
    let name_s = chars_to_string(name_v);
    let feat_s = chars_to_string(feat_v);
    let f = crate::models::Feature::with_created(name_s, feat_s, algo, hint, ts);
    Some((i9, f))
}

fn scan_blocks_exec(t: &str, i: usize) -> (r: Option<(usize, Vec<crate::models::Feature>)>)
    ensures
        r is Some ==> ({
            let (j2, fs) = r->0;
            &&& scan_blocks_toml(t@, i as int, Seq::<crate::models::FeatureView>::empty()) == Some(
                ((j2 as int), fs@.map_values(|f: crate::models::Feature| f@)),
            )
            &&& j2 <= t@.len()
        }),
        r is None ==> scan_blocks_toml(t@, i as int, Seq::<crate::models::FeatureView>::empty())
            is None,
{
    let n = t.unicode_len();
    let mut acc: Vec<crate::models::Feature> = Vec::new();
    let mut j = i;
    proof {
        assert(acc@.map_values(|f: crate::models::Feature| f@) =~= Seq::<
            crate::models::FeatureView,
        >::empty());
    }
    loop
        invariant
            n == t@.len(),
            scan_blocks_toml(t@, i as int, Seq::<crate::models::FeatureView>::empty())
                == scan_blocks_toml(t@, j as int, acc@.map_values(|f: crate::models::Feature| f@)),
        decreases n - j,
    {
        let ghost accv = acc@.map_values(|f: crate::models::Feature| f@);
        match parse_block_toml_exec(t, j) {
            None => {
                return None;
            },
            Some((j2, f)) => {
                acc.push(f);
                proof {
                    assert(acc@.map_values(|f: crate::models::Feature| f@) =~= accv.push(f@));
                }
                if j2 == n {
                    return Some((j2, acc));
                }
                j = j2;
            },
        }
    }
}

/// Parse a canonical TOML catalog text in executable code.
pub(crate) fn parse_toml_exec(t: &str) -> (r: Option<crate::models::FeatureStore>)
    ensures
        r is Some <==> parse_toml(t@) is Some,
        r is Some ==> r->0@ == parse_toml(t@)->0,
{
    let n = t.unicode_len();
    if let Some(j) = expect_lit_exec(t, 0, "features = []\n") {
        if j == n {
            let store = crate::models::FeatureStore::new();
            return Some(store);
        }
    }
    match scan_blocks_exec(t, 0) {
        None => None,
        Some((j, feats)) => {
            let store = crate::models::FeatureStore { features: feats };
            Some(store)
        },
    }
}

} // verus!
