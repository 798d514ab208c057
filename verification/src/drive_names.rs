//! How Google Drive names become path components and back: characters that
//! Windows or the path syntax cannot hold are percent-encoded, and decoding
//! restores the original name.
use vstd::prelude::*;
use vstd::utf8::{encode_scalar, encode_utf8, valid_utf8, decode_utf8, leading_byte_width_1};
use crate::text::{ascii_upper, ascii_upper_seq, chars_of, push_char, to_ascii_upper};

verus! {

broadcast use vstd::string::group_string_axioms;

/// A character that trailing trimming removes from a name.
pub open spec fn is_trailing_trim(c: char) -> bool {
    c == ' ' || c == '.'
}

/// The length of `v` once trailing spaces and dots are removed.
pub open spec fn trimmed_end_len(v: Seq<char>) -> nat
    decreases v.len(),
{
    if v.len() > 0 && is_trailing_trim(v.last()) {
        trimmed_end_len(v.drop_last())
    } else {
        v.len()
    }
}

/// The text before the first `.` of `s`.
pub open spec fn before_first_dot(s: Seq<char>) -> Seq<char>
    decreases s.len(),
{
    if s.len() == 0 || s[0] == '.' {
        Seq::empty()
    } else {
        seq![s[0]] + before_first_dot(s.drop_first())
    }
}

/// The device names that Windows reserves.
pub open spec fn is_reserved_device(stem: Seq<char>) -> bool {
    stem == "CON"@ || stem == "PRN"@ || stem == "AUX"@ || stem == "NUL"@ || stem == "COM1"@ || stem == "COM2"@
        || stem == "COM3"@ || stem == "COM4"@ || stem == "COM5"@ || stem == "COM6"@ || stem == "COM7"@
        || stem == "COM8"@ || stem == "COM9"@ || stem == "LPT1"@ || stem == "LPT2"@ || stem == "LPT3"@
        || stem == "LPT4"@ || stem == "LPT5"@ || stem == "LPT6"@ || stem == "LPT7"@ || stem == "LPT8"@
        || stem == "LPT9"@
}

/// Whether a name's stem (before its first dot, after trailing trimming) is
/// a Windows device name, ignoring ASCII case.
pub open spec fn is_reserved_name(v: Seq<char>) -> bool {
    is_reserved_device(ascii_upper_seq(before_first_dot(v.take(trimmed_end_len(v) as int))))
}

/// An ASCII control character.
pub open spec fn is_ascii_control(c: char) -> bool {
    (c as u32) < 0x20 || (c as u32) == 0x7f
}

/// The characters that a path component may not hold as they are.
pub open spec fn is_forbidden_char(c: char) -> bool {
    c == '<' || c == '>' || c == ':' || c == '"' || c == '/' || c == '\\' || c == '|' || c == '?' || c == '*' || c == '%'
}

/// Whether position `i` of `v` is percent-encoded.
pub open spec fn must_encode(v: Seq<char>, reserved: bool, i: int) -> bool {
    is_ascii_control(v[i]) || is_forbidden_char(v[i]) || i >= trimmed_end_len(v) || (reserved && i == 0)
}

/// The upper-case hexadecimal digit for `n` (below 16).
pub open spec fn hex_upper(n: int) -> char {
    if n < 10 {
        (48 + n) as char
    } else {
        (55 + n) as char
    }
}

/// `%` and the two hexadecimal digits of an ASCII character.
pub open spec fn percent_escape(c: char) -> Seq<char> {
    seq!['%', hex_upper((c as u32) as int / 16), hex_upper((c as u32) as int % 16)]
}

/// The encoding of positions `i` onwards of `v`.
pub open spec fn encode_from(v: Seq<char>, reserved: bool, i: int) -> Seq<char>
    decreases v.len() - i,
{
    if i < 0 || i >= v.len() {
        Seq::empty()
    } else {
        (if must_encode(v, reserved, i) { percent_escape(v[i]) } else { seq![v[i]] }) + encode_from(v, reserved, i + 1)
    }
}

/// The path component for the Google Drive name `v`.
pub open spec fn encoded_component(v: Seq<char>) -> Seq<char> {
    encode_from(v, is_reserved_name(v), 0)
}

/// The value of a hexadecimal digit byte.
pub open spec fn hex_byte_value(b: u8) -> Option<u8> {
    if 48 <= b && b <= 57 {
        Some((b - 48) as u8)
    } else if 97 <= b && b <= 102 {
        Some((b - 87) as u8)
    } else if 65 <= b && b <= 70 {
        Some((b - 55) as u8)
    } else {
        None
    }
}

/// Percent-decoding of bytes; `None` when a `%` is not followed by two
/// hexadecimal digits.
pub open spec fn percent_decode(b: Seq<u8>) -> Option<Seq<u8>>
    decreases b.len(),
{
    if b.len() == 0 {
        Some(Seq::empty())
    } else if b[0] == 37 {
        if b.len() >= 3 && hex_byte_value(b[1]) is Some && hex_byte_value(b[2]) is Some {
            match percent_decode(b.skip(3)) {
                Some(rest) => Some(seq![(hex_byte_value(b[1])->0 * 16 + hex_byte_value(b[2])->0) as u8] + rest),
                None => None,
            }
        } else {
            None
        }
    } else {
        match percent_decode(b.skip(1)) {
            Some(rest) => Some(seq![b[0]] + rest),
            None => None,
        }
    }
}

/// The Google Drive name that the path component `v` stands for, if `v` is a
/// valid encoding.
pub open spec fn decoded_component(v: Seq<char>) -> Option<Seq<char>> {
    match percent_decode(encode_utf8(v)) {
        Some(bytes) => if valid_utf8(bytes) {
            Some(decode_utf8(bytes))
        } else {
            None
        },
        None => None,
    }
}

/// A string holding the given UTF-8 bytes, if they are valid UTF-8
/// (`String::from_utf8`).
#[verifier::external_body]
fn string_from_utf8(bytes: Vec<u8>) -> (r: Option<String>)
    ensures
        match r {
            Some(s) => valid_utf8(bytes@) && s@ == decode_utf8(bytes@),
            None => !valid_utf8(bytes@),
        },
{
    String::from_utf8(bytes).ok()
}

/// The value of a hexadecimal digit byte.
fn hex_value(b: u8) -> (r: Option<u8>)
    ensures
        r == hex_byte_value(b),
{
    if 48 <= b && b <= 57 {
        Some(b - 48)
    } else if 97 <= b && b <= 102 {
        Some(b - 87)
    } else if 65 <= b && b <= 70 {
        Some(b - 55)
    } else {
        None
    }
}

/// Prepends `out` to a decoding result.
pub open spec fn prepend_bytes(out: Seq<u8>, rest: Option<Seq<u8>>) -> Option<Seq<u8>> {
    match rest {
        Some(r) => Some(out + r),
        None => None,
    }
}

/// Decodes a path component back to the Google Drive name; `None` when it is
/// not a valid encoding.
pub fn decode_path_component(value: &str) -> (r: Option<String>)
    ensures
        match decoded_component(value@) {
            Some(name) => r matches Some(s) && s@ == name,
            None => r is None,
        },
{
    let input = value.as_bytes();
    let n = input.len();
    let ghost b = input@;
    let mut decoded: Vec<u8> = Vec::new();
    let mut index: usize = 0;
    proof {
        assert(b.skip(0) == b);
        assert(b == encode_utf8(value@));
        if percent_decode(b) is Some {
            assert(Seq::<u8>::empty() + percent_decode(b)->0 == percent_decode(b)->0);
        }
    }
    while index < n
        invariant
            n == b.len(),
            input@ == b,
            b == encode_utf8(value@),
            index <= n,
            percent_decode(b) == prepend_bytes(decoded@, percent_decode(b.skip(index as int))),
        decreases n - index,
    {
        let ghost rest = b.skip(index as int);
        if input[index] == 37 {
            if n - index < 3 {
                proof {
                    assert(rest[0] == 37);
                    assert(rest.len() == n - index);
                }
                return None;
            }
            let high = hex_value(input[index + 1]);
            let low = hex_value(input[index + 2]);
            proof {
                assert(rest[0] == 37 && rest[1] == input@[index + 1] && rest[2] == input@[index + 2]);
            }
            match (high, low) {
                (Some(h), Some(l)) => {
                    let byte = h * 16 + l;
                    proof {
                        assert(rest.skip(3) == b.skip(index + 3));
                        let tail = percent_decode(rest.skip(3));
                        if tail is Some {
                            assert(decoded@.push(byte) + tail->0 == decoded@ + (seq![byte] + tail->0));
                        }
                    }
                    decoded.push(byte);
                    index = index + 3;
                },
                _ => {
                    return None;
                },
            }
        } else {
            let byte = input[index];
            proof {
                assert(rest[0] == byte);
                assert(rest.skip(1) == b.skip(index + 1));
                let tail = percent_decode(rest.skip(1));
                if tail is Some {
                    assert(decoded@.push(byte) + tail->0 == decoded@ + (seq![byte] + tail->0));
                }
            }
            decoded.push(byte);
            index = index + 1;
        }
    }
    proof {
        assert(b.skip(n as int) =~= Seq::<u8>::empty());
        assert(decoded@ + Seq::<u8>::empty() == decoded@);
    }
    string_from_utf8(decoded)
}

} // verus!

verus! {

proof fn lemma_trimmed_end_len(v: Seq<char>, j: int)
    requires
        0 <= j <= v.len(),
        forall|k: int| j <= k < v.len() ==> is_trailing_trim(v[k]),
        j == 0 || !is_trailing_trim(v[j - 1]),
    ensures
        trimmed_end_len(v) == j,
    decreases v.len() - j,
{
    if j < v.len() {
        lemma_trimmed_end_len(v.drop_last(), j);
    }
}

proof fn lemma_trimmed_end_len_bounds(v: Seq<char>)
    ensures
        trimmed_end_len(v) <= v.len(),
        forall|k: int| trimmed_end_len(v) <= k < v.len() ==> is_trailing_trim(v[k]),
    decreases v.len(),
{
    if v.len() > 0 && is_trailing_trim(v.last()) {
        lemma_trimmed_end_len_bounds(v.drop_last());
        assert forall|k: int| trimmed_end_len(v) <= k < v.len() implies is_trailing_trim(v[k]) by {
            if k < v.len() - 1 {
                assert(v.drop_last()[k] == v[k]);
            }
        }
    }
}

proof fn lemma_before_first_dot(s: Seq<char>, i: int)
    requires
        0 <= i <= s.len(),
        forall|k: int| 0 <= k < i ==> s[k] != '.',
        i == s.len() || s[i] == '.',
    ensures
        before_first_dot(s) == s.take(i),
    decreases i,
{
    if i > 0 {
        lemma_before_first_dot(s.drop_first(), i - 1);
        assert(seq![s[0]] + s.drop_first().take(i - 1) =~= s.take(i));
    } else {
        assert(s.take(0) =~= Seq::<char>::empty());
    }
}

/// A reserved name starts with an ASCII letter.
proof fn lemma_reserved_starts_ascii(v: Seq<char>)
    requires
        is_reserved_name(v),
    ensures
        v.len() > 0,
        (v[0] as u32) < 128,
{
    let t = trimmed_end_len(v);
    lemma_trimmed_end_len_bounds(v);
    let w = v.take(t as int);
    let stem = before_first_dot(w);
    let up = ascii_upper_seq(stem);
    reveal_strlit("CON");
    reveal_strlit("PRN");
    reveal_strlit("AUX");
    reveal_strlit("NUL");
    reveal_strlit("COM1");
    reveal_strlit("COM2");
    reveal_strlit("COM3");
    reveal_strlit("COM4");
    reveal_strlit("COM5");
    reveal_strlit("COM6");
    reveal_strlit("COM7");
    reveal_strlit("COM8");
    reveal_strlit("COM9");
    reveal_strlit("LPT1");
    reveal_strlit("LPT2");
    reveal_strlit("LPT3");
    reveal_strlit("LPT4");
    reveal_strlit("LPT5");
    reveal_strlit("LPT6");
    reveal_strlit("LPT7");
    reveal_strlit("LPT8");
    reveal_strlit("LPT9");
    assert(up.len() > 0);
    assert(stem.len() > 0);
    assert(w.len() > 0 && w[0] != '.');
    assert(stem[0] == w[0]);
    assert(w[0] == v[0]);
    let u = up[0];
    assert(u == ascii_upper(v[0]));
    assert(u == 'C' || u == 'P' || u == 'A' || u == 'N' || u == 'L');
}

/// Whether the name `v` is a Windows device name.
pub fn is_windows_reserved_name(v: &[char]) -> (r: bool)
    ensures
        r == is_reserved_name(v@),
{
    let n = v.len();
    let mut j: usize = n;
    while j > 0 && (v[j - 1] == ' ' || v[j - 1] == '.')
        invariant
            n == v@.len(),
            j <= n,
            forall|k: int| j <= k < n ==> is_trailing_trim(v@[k]),
        decreases j,
    {
        j = j - 1;
    }
    proof {
        lemma_trimmed_end_len(v@, j as int);
    }
    let ghost w = v@.take(j as int);
    let mut i: usize = 0;
    while i < j && v[i] != '.'
        invariant
            j <= n == v@.len(),
            i <= j,
            w == v@.take(j as int),
            forall|k: int| 0 <= k < i ==> w[k] != '.',
        decreases j - i,
    {
        i = i + 1;
    }
    proof {
        lemma_before_first_dot(w, i as int);
    }
    let mut stem: Vec<char> = Vec::new();
    for k in 0..i
        invariant
            i <= j <= n == v@.len(),
            w == v@.take(j as int),
            stem@ == ascii_upper_seq(w.take(k as int)),
    {
        let c = to_ascii_upper(v[k]);
        stem.push(c);
        proof {
            assert(ascii_upper_seq(w.take(k + 1)) =~= ascii_upper_seq(w.take(k as int)).push(c));
        }
    }
    let names = ["CON", "PRN", "AUX", "NUL", "COM1", "COM2", "COM3", "COM4", "COM5", "COM6", "COM7", "COM8", "COM9",
        "LPT1", "LPT2", "LPT3", "LPT4", "LPT5", "LPT6", "LPT7", "LPT8", "LPT9"];
    let ghost target = stem@;
    let mut found = false;
    for k in 0..22
        invariant
            target == stem@,
            found == exists|m: int| 0 <= m < k && target == names@[m]@,
    {
        let name = chars_of(names[k]);
        if crate::text::chars_eq(stem.as_slice(), name.as_slice()) {
            found = true;
        }
        proof {
            if found {
                if target == names@[k as int]@ {
                } else {
                    let m = choose|m: int| 0 <= m < k && target == names@[m]@;
                    assert(0 <= m < k + 1 && target == names@[m]@);
                }
            }
            if !found {
                assert forall|m: int| 0 <= m < k + 1 implies target != names@[m]@ by {
                    if m < k {
                    }
                }
            }
        }
    }
    proof {
        assert(found == is_reserved_device(target)) by {
            if is_reserved_device(target) {
                if target == "CON"@ { assert(target == names@[0]@); }
                if target == "PRN"@ { assert(target == names@[1]@); }
                if target == "AUX"@ { assert(target == names@[2]@); }
                if target == "NUL"@ { assert(target == names@[3]@); }
                if target == "COM1"@ { assert(target == names@[4]@); }
                if target == "COM2"@ { assert(target == names@[5]@); }
                if target == "COM3"@ { assert(target == names@[6]@); }
                if target == "COM4"@ { assert(target == names@[7]@); }
                if target == "COM5"@ { assert(target == names@[8]@); }
                if target == "COM6"@ { assert(target == names@[9]@); }
                if target == "COM7"@ { assert(target == names@[10]@); }
                if target == "COM8"@ { assert(target == names@[11]@); }
                if target == "COM9"@ { assert(target == names@[12]@); }
                if target == "LPT1"@ { assert(target == names@[13]@); }
                if target == "LPT2"@ { assert(target == names@[14]@); }
                if target == "LPT3"@ { assert(target == names@[15]@); }
                if target == "LPT4"@ { assert(target == names@[16]@); }
                if target == "LPT5"@ { assert(target == names@[17]@); }
                if target == "LPT6"@ { assert(target == names@[18]@); }
                if target == "LPT7"@ { assert(target == names@[19]@); }
                if target == "LPT8"@ { assert(target == names@[20]@); }
                if target == "LPT9"@ { assert(target == names@[21]@); }
            }
            if found {
                let m = choose|m: int| 0 <= m < 22 && target == names@[m]@;
                assert(0 <= m < 22);
            }
        }
        assert(w.take(i as int) == before_first_dot(w));
    }
    found
}

} // verus!

verus! {

/// The upper-case hexadecimal digit for `n`.
pub(crate) fn hex_digit(n: u32) -> (c: char)
    requires
        n < 16,
    ensures
        c == hex_upper(n as int),
{
    let digits = ['0', '1', '2', '3', '4', '5', '6', '7', '8', '9', 'A', 'B', 'C', 'D', 'E', 'F'];
    let c = digits[n as usize];
    proof {
        assert(digits@[0] == '0' && digits@[1] == '1' && digits@[2] == '2' && digits@[3] == '3');
        assert(digits@[4] == '4' && digits@[5] == '5' && digits@[6] == '6' && digits@[7] == '7');
        assert(digits@[8] == '8' && digits@[9] == '9' && digits@[10] == 'A' && digits@[11] == 'B');
        assert(digits@[12] == 'C' && digits@[13] == 'D' && digits@[14] == 'E' && digits@[15] == 'F');
    }
    c
}

/// Every percent-encoded position holds an ASCII character.
proof fn lemma_encoded_positions_ascii(v: Seq<char>, i: int)
    requires
        0 <= i < v.len(),
        must_encode(v, is_reserved_name(v), i),
    ensures
        (v[i] as u32) < 128,
{
    lemma_trimmed_end_len_bounds(v);
    if is_reserved_name(v) && i == 0 {
        lemma_reserved_starts_ascii(v);
    }
}

/// Encodes a Google Drive name as a path component: controls, characters
/// that paths or Windows forbid, `%`, trailing spaces and dots, and the first
/// letter of a Windows device name become `%XX`.
pub fn encode_path_component(value: &str) -> (r: String)
    ensures
        r@ == encoded_component(value@),
{
    let v = chars_of(value);
    let n = v.len();
    let mut safe_end: usize = n;
    while safe_end > 0 && (v[safe_end - 1] == ' ' || v[safe_end - 1] == '.')
        invariant
            n == v@.len(),
            safe_end <= n,
            forall|k: int| safe_end <= k < n ==> is_trailing_trim(v@[k]),
        decreases safe_end,
    {
        safe_end = safe_end - 1;
    }
    proof {
        lemma_trimmed_end_len(v@, safe_end as int);
    }
    let reserved = is_windows_reserved_name(v.as_slice());
    let ghost full = encode_from(v@, reserved, 0);
    let mut out = String::new();
    for i in 0..n
        invariant
            n == v@.len(),
            v@ == value@,
            safe_end == trimmed_end_len(v@),
            reserved == is_reserved_name(v@),
            full == encode_from(v@, reserved, 0),
            out@ + encode_from(v@, reserved, i as int) == full,
    {
        let c = v[i];
        let code = c as u32;
        let escape = code < 0x20 || code == 0x7f || c == '<' || c == '>' || c == ':' || c == '"' || c == '/'
            || c == '\\' || c == '|' || c == '?' || c == '*' || c == '%' || i >= safe_end || (reserved && i == 0);
        proof {
            assert(escape == must_encode(v@, reserved, i as int));
        }
        let ghost before = out@;
        let ghost piece = if escape { percent_escape(c) } else { seq![c] };
        if escape {
            proof {
                lemma_encoded_positions_ascii(v@, i as int);
            }
            push_char(&mut out, '%');
            push_char(&mut out, hex_digit(code / 16));
            push_char(&mut out, hex_digit(code % 16));
            proof {
                assert(out@ == before + piece);
            }
        } else {
            push_char(&mut out, c);
            proof {
                assert(out@ == before + piece);
            }
        }
        proof {
            assert(encode_from(v@, reserved, i as int) == piece + encode_from(v@, reserved, i + 1));
            assert(before + (piece + encode_from(v@, reserved, i + 1)) == (before + piece) + encode_from(v@, reserved, i + 1));
        }
    }
    proof {
        assert(encode_from(v@, reserved, n as int) == Seq::<char>::empty());
        assert(out@ + Seq::<char>::empty() == out@);
    }
    out
}

} // verus!

verus! {

/// The UTF-8 encoding of a concatenation is the concatenation of encodings.
proof fn lemma_encode_utf8_concat(a: Seq<char>, b: Seq<char>)
    ensures
        encode_utf8(a + b) == encode_utf8(a) + encode_utf8(b),
    decreases a.len(),
{
    if a.len() == 0 {
        assert(a + b == b);
        assert(Seq::<u8>::empty() + encode_utf8(b) == encode_utf8(b));
    } else {
        lemma_encode_utf8_concat(a.drop_first(), b);
        assert((a + b).drop_first() == a.drop_first() + b);
        assert((a + b)[0] == a[0]);
        assert(encode_scalar(a[0] as u32) + (encode_utf8(a.drop_first()) + encode_utf8(b))
            == (encode_scalar(a[0] as u32) + encode_utf8(a.drop_first())) + encode_utf8(b));
    }
}

/// Bytes without `%` pass through percent-decoding unchanged.
proof fn lemma_percent_decode_plain(a: Seq<u8>, x: Seq<u8>)
    requires
        forall|k: int| 0 <= k < a.len() ==> a[k] != 37,
    ensures
        percent_decode(a + x) == prepend_bytes(a, percent_decode(x)),
    decreases a.len(),
{
    if a.len() == 0 {
        assert(a + x == x);
        if percent_decode(x) is Some {
            assert(a + percent_decode(x)->0 == percent_decode(x)->0);
        }
    } else {
        lemma_percent_decode_plain(a.drop_first(), x);
        assert((a + x).skip(1) == a.drop_first() + x);
        assert((a + x)[0] == a[0]);
        if percent_decode(x) is Some {
            assert(seq![a[0]] + (a.drop_first() + percent_decode(x)->0) == a + percent_decode(x)->0);
        }
    }
}

proof fn lemma_high_bit_bytes(y: u8)
    by (bit_vector)
    ensures
        (0xC0u8 | y) >= 0x80,
        (0xE0u8 | y) >= 0x80,
        (0xF0u8 | y) >= 0x80,
        (0x80u8 | y) >= 0x80,
{
}

proof fn lemma_ascii_byte(c: u32)
    by (bit_vector)
    requires
        c <= 0x7f,
    ensures
        ((c & 0x7f) as u8) as u32 == c,
{
}

/// The encoding of a character other than `%` holds no `%` byte.
proof fn lemma_scalar_has_no_percent(c: char)
    requires
        c != '%',
    ensures
        forall|k: int| 0 <= k < encode_scalar(c as u32).len() ==> #[trigger] encode_scalar(c as u32)[k] != 37,
{
    let s = c as u32;
    if s <= 0x7f {
        lemma_ascii_byte(s);
        assert(encode_scalar(s) == seq![leading_byte_width_1(s)]);
    } else {
        lemma_high_bit_bytes(((s >> 6) & 0x1F) as u8);
        lemma_high_bit_bytes(((s >> 12) & 0x0F) as u8);
        lemma_high_bit_bytes(((s >> 18) & 0x7) as u8);
        lemma_high_bit_bytes((s & 0x3F) as u8);
        lemma_high_bit_bytes(((s >> 6) & 0x3F) as u8);
        lemma_high_bit_bytes(((s >> 12) & 0x3F) as u8);
    }
}

/// An ASCII character is encoded as its own code.
proof fn lemma_ascii_scalar(c: char)
    requires
        (c as u32) < 128,
    ensures
        encode_scalar(c as u32) == seq![(c as u32) as u8],
{
    lemma_ascii_byte(c as u32);
}

/// A hexadecimal digit character decodes to its value.
proof fn lemma_hex_digit_round_trip(n: int)
    requires
        0 <= n < 16,
    ensures
        (hex_upper(n) as u32) < 128,
        hex_byte_value(((hex_upper(n) as u32) as u8)) == Some(n as u8),
{
}

/// Decoding a percent escape gives back the escaped ASCII character.
proof fn lemma_percent_escape_round_trip(c: char, x: Seq<u8>)
    requires
        (c as u32) < 128,
    ensures
        percent_decode(encode_utf8(percent_escape(c)) + x) == prepend_bytes(encode_scalar(c as u32), percent_decode(x)),
{
    let code = (c as u32) as int;
    let h = hex_upper(code / 16);
    let l = hex_upper(code % 16);
    lemma_hex_digit_round_trip(code / 16);
    lemma_hex_digit_round_trip(code % 16);
    let e = percent_escape(c);
    assert(e == seq!['%', h, l]);
    lemma_ascii_scalar('%');
    lemma_ascii_scalar(h);
    lemma_ascii_scalar(l);
    lemma_ascii_scalar(c);
    assert(e.drop_first() == seq![h, l]);
    assert(e.drop_first().drop_first() == seq![l]);
    assert(e.drop_first().drop_first().drop_first() =~= Seq::<char>::empty());
    let bytes = encode_utf8(e);
    let e1 = e.drop_first();
    let e2 = e1.drop_first();
    let e3 = e2.drop_first();
    assert(encode_utf8(e3) == Seq::<u8>::empty());
    assert(encode_utf8(e2) == encode_scalar(l as u32) + encode_utf8(e3));
    assert(encode_utf8(e2) =~= seq![(l as u32) as u8]);
    assert(encode_utf8(e1) == encode_scalar(h as u32) + encode_utf8(e2));
    assert(encode_utf8(e1) =~= seq![(h as u32) as u8, (l as u32) as u8]);
    assert(bytes == encode_scalar('%' as u32) + encode_utf8(e1));
    assert(bytes =~= seq![37u8, (h as u32) as u8, (l as u32) as u8]);
    let b = bytes + x;
    assert(b[0] == 37 && b[1] == (h as u32) as u8 && b[2] == (l as u32) as u8);
    assert(b.skip(3) == x);
    assert((code / 16) * 16 + code % 16 == code);
    if percent_decode(x) is Some {
        assert(seq![(code as u32) as u8] + percent_decode(x)->0 == seq![(code as u32) as u8] + percent_decode(x)->0);
    }
}

/// Decoding the encoding of positions `i` onwards gives the UTF-8 bytes of
/// those positions.
proof fn lemma_decode_encode_from(v: Seq<char>, i: int)
    requires
        0 <= i <= v.len(),
    ensures
        percent_decode(encode_utf8(encode_from(v, is_reserved_name(v), i))) == Some(encode_utf8(v.skip(i))),
    decreases v.len() - i,
{
    let r = is_reserved_name(v);
    if i == v.len() {
        assert(v.skip(i) =~= Seq::<char>::empty());
        assert(encode_from(v, r, i) == Seq::<char>::empty());
    } else {
        lemma_decode_encode_from(v, i + 1);
        let c = v[i];
        let rest = encode_from(v, r, i + 1);
        let tail = encode_utf8(rest);
        let piece = if must_encode(v, r, i) { percent_escape(c) } else { seq![c] };
        assert(encode_from(v, r, i) == piece + rest);
        lemma_encode_utf8_concat(piece, rest);
        assert(v.skip(i).drop_first() == v.skip(i + 1));
        assert(v.skip(i)[0] == c);
        assert(encode_utf8(v.skip(i)) == encode_scalar(c as u32) + encode_utf8(v.skip(i + 1)));
        if must_encode(v, r, i) {
            lemma_encoded_positions_ascii(v, i);
            lemma_percent_escape_round_trip(c, tail);
        } else {
            assert(c != '%');
            assert(seq![c].drop_first() =~= Seq::<char>::empty());
            assert(encode_utf8(seq![c].drop_first()) == Seq::<u8>::empty());
            assert(seq![c][0] == c);
            assert(encode_utf8(piece) == encode_scalar(c as u32) + Seq::<u8>::empty());
            assert(encode_scalar(c as u32) + Seq::<u8>::empty() == encode_scalar(c as u32));
            lemma_scalar_has_no_percent(c);
            lemma_percent_decode_plain(encode_scalar(c as u32), tail);
        }
    }
}

/// Decoding an encoded Google Drive name gives the name back.
pub proof fn lemma_decode_inverts_encode(name: Seq<char>)
    ensures
        decoded_component(encoded_component(name)) == Some(name),
{
    broadcast use vstd::utf8::encode_utf8_valid_utf8, vstd::utf8::encode_utf8_decode_utf8;
    lemma_decode_encode_from(name, 0);
    assert(name.skip(0) == name);
}

/// A character that an encoded component may hold: no ASCII control
/// character and none of the forbidden characters but `%`, which only
/// starts an escape.
pub open spec fn is_safe_component_char(c: char) -> bool {
    !is_ascii_control(c) && (is_forbidden_char(c) ==> c == '%')
}

/// What position `i` of `v` becomes when encoded.
pub open spec fn encoded_piece(v: Seq<char>, reserved: bool, i: int) -> Seq<char> {
    if must_encode(v, reserved, i) { percent_escape(v[i]) } else { seq![v[i]] }
}

/// The characters that are escaped are ASCII.
proof fn lemma_escaped_is_ascii(v: Seq<char>, reserved: bool, i: int)
    requires
        0 <= i < v.len(),
        must_encode(v, reserved, i),
        reserved ==> is_reserved_name(v),
    ensures
        (v[i] as u32) < 128,
{
    lemma_trimmed_end_len_bounds(v);
    if reserved && i == 0 && !is_ascii_control(v[i]) && !is_forbidden_char(v[i]) && i < trimmed_end_len(v) {
        lemma_reserved_starts_ascii(v);
    }
}

/// Each encoded piece holds only safe characters, and its last one is
/// neither a space nor a dot.
proof fn lemma_piece_safe(v: Seq<char>, reserved: bool, i: int)
    requires
        0 <= i < v.len(),
        reserved ==> is_reserved_name(v),
    ensures
        encoded_piece(v, reserved, i).len() > 0,
        forall|k: int| 0 <= k < encoded_piece(v, reserved, i).len() ==> is_safe_component_char(
            #[trigger] encoded_piece(v, reserved, i)[k],
        ),
        i == v.len() - 1 ==> !is_trailing_trim(encoded_piece(v, reserved, i).last()),
{
    lemma_trimmed_end_len_bounds(v);
    if must_encode(v, reserved, i) {
        lemma_escaped_is_ascii(v, reserved, i);
        let code = (v[i] as u32) as int;
        assert(0 <= code / 16 < 8);
        assert(0 <= code % 16 < 16);
        let e = percent_escape(v[i]);
        assert forall|k: int| 0 <= k < e.len() implies is_safe_component_char(#[trigger] e[k]) by {
            if k > 0 {
                let d = if k == 1 { code / 16 } else { code % 16 };
                assert(e[k] == hex_upper(d));
                assert(48 <= (hex_upper(d) as u32) <= 57 || 65 <= (hex_upper(d) as u32) <= 70);
            }
        }
        assert(e.last() == hex_upper(code % 16));
        assert(48 <= (hex_upper(code % 16) as u32) <= 57 || 65 <= (hex_upper(code % 16) as u32) <= 70);
    } else {
        if i == v.len() - 1 {
            assert(i < trimmed_end_len(v));
            assert(trimmed_end_len(v) == v.len());
            if is_trailing_trim(v.last()) {
                lemma_trimmed_end_len_bounds(v.drop_last());
                assert(trimmed_end_len(v) == trimmed_end_len(v.drop_last()));
            }
        }
    }
}

/// The encoding from position `i` on holds only safe characters, and when
/// there is one, its last character is that of the last position's piece.
proof fn lemma_encode_from_safe(v: Seq<char>, reserved: bool, i: int)
    requires
        0 <= i <= v.len(),
        reserved ==> is_reserved_name(v),
    ensures
        forall|k: int| 0 <= k < encode_from(v, reserved, i).len() ==> is_safe_component_char(
            #[trigger] encode_from(v, reserved, i)[k],
        ),
        i < v.len() ==> encode_from(v, reserved, i).len() > 0 && encode_from(v, reserved, i).last()
            == encoded_piece(v, reserved, v.len() - 1).last(),
    decreases v.len() - i,
{
    if i < v.len() {
        lemma_encode_from_safe(v, reserved, i + 1);
        lemma_piece_safe(v, reserved, i);
        let p = encoded_piece(v, reserved, i);
        let rest = encode_from(v, reserved, i + 1);
        assert(encode_from(v, reserved, i) == p + rest);
        assert forall|k: int| 0 <= k < (p + rest).len() implies is_safe_component_char(#[trigger] (p + rest)[k]) by {
            if k < p.len() {
                assert((p + rest)[k] == p[k]);
            } else {
                assert((p + rest)[k] == rest[k - p.len()]);
            }
        }
    }
}

/// An encoded Google Drive name holds no ASCII control character and none
/// of `<`, `>`, `:`, `"`, `/`, `\`, `|`, `?` and `*` (a `%` only starts an
/// escape), and does not end with a space or a dot.
pub proof fn lemma_encoded_component_is_safe(name: Seq<char>)
    ensures
        forall|k: int| 0 <= k < encoded_component(name).len() ==> is_safe_component_char(
            #[trigger] encoded_component(name)[k],
        ),
        encoded_component(name).len() > 0 ==> !is_trailing_trim(encoded_component(name).last()),
{
    lemma_encode_from_safe(name, is_reserved_name(name), 0);
    if name.len() > 0 {
        lemma_piece_safe(name, is_reserved_name(name), name.len() - 1);
    }
}

} // verus!
