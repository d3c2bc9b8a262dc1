//! Character-level text helpers: UTF-16 coding and string building.
use vstd::prelude::*;

verus! {

/// UTF-16 code units of one character.
pub open spec fn utf16_of_char(c: char) -> Seq<u16> {
    let v = (c as u32) as int;
    if v < 0x10000 {
        seq![v as u16]
    } else {
        let w = v - 0x10000;
        seq![(0xD800 + w / 1024) as u16, (0xDC00 + w % 1024) as u16]
    }
}

/// UTF-16 encoding of a character sequence.
pub open spec fn encode_utf16(s: Seq<char>) -> Seq<u16>
    decreases s.len(),
{
    if s.len() == 0 {
        seq![]
    } else {
        utf16_of_char(s[0]) + encode_utf16(s.drop_first())
    }
}

/// Whether `u` is a UTF-16 high (leading) surrogate.
pub open spec fn is_high_surrogate(u: u16) -> bool {
    0xD800 <= u < 0xDC00
}

/// Whether `u` is a UTF-16 low (trailing) surrogate.
pub open spec fn is_low_surrogate(u: u16) -> bool {
    0xDC00 <= u < 0xE000
}

/// Strict UTF-16 decoding: `None` when an unpaired surrogate occurs.
pub open spec fn decode_utf16(u: Seq<u16>) -> Option<Seq<char>>
    decreases u.len(),
{
    if u.len() == 0 {
        Some(seq![])
    } else if !is_high_surrogate(u[0]) && !is_low_surrogate(u[0]) {
        match decode_utf16(u.drop_first()) {
            Some(rest) => Some(seq![(u[0] as u32) as char] + rest),
            None => None,
        }
    } else if is_high_surrogate(u[0]) && u.len() >= 2 && is_low_surrogate(u[1]) {
        match decode_utf16(u.skip(2)) {
            Some(rest) => Some(
                seq![((0x10000 + (u[0] - 0xD800) * 1024 + (u[1] - 0xDC00)) as u32) as char] + rest,
            ),
            None => None,
        }
    } else {
        None
    }
}

/// Encoding distributes over concatenation.
pub proof fn lemma_encode_concat(a: Seq<char>, b: Seq<char>)
    ensures
        encode_utf16(a + b) == encode_utf16(a) + encode_utf16(b),
    decreases a.len(),
{
    if a.len() == 0 {
        assert(a + b =~= b);
    } else {
        assert((a + b).drop_first() =~= a.drop_first() + b);
        lemma_encode_concat(a.drop_first(), b);
        assert(encode_utf16(a + b) =~= encode_utf16(a) + encode_utf16(b));
    }
}

/// Decoding gives back what was encoded.
pub proof fn lemma_decode_encode(s: Seq<char>)
    ensures
        decode_utf16(encode_utf16(s)) == Some(s),
    decreases s.len(),
{
    if s.len() == 0 {
    } else {
        lemma_decode_encode(s.drop_first());
        let c = s[0];
        let e = encode_utf16(s);
        let rest = encode_utf16(s.drop_first());
        let v = (c as u32) as int;
        vstd::utf8::char_is_scalar(c);
        vstd::utf8::char_u32_cast(c, c as u32);
        assert(0 <= v <= 0x10FFFF && !(0xD800 <= v < 0xE000));
        if v < 0x10000 {
            assert(e.drop_first() =~= rest);
            assert(seq![(e[0] as u32) as char] + s.drop_first() =~= s);
        } else {
            let w = v - 0x10000;
            assert(0 <= w / 1024 < 1024 && 0 <= w % 1024 < 1024 && w == w / 1024 * 1024 + w % 1024)
                by (nonlinear_arith)
                requires 0 <= w < 0x100000;
            assert(e.skip(2) =~= rest);
            assert(0x10000 + (e[0] - 0xD800) * 1024 + (e[1] - 0xDC00) == v);
            assert(seq![((0x10000 + (e[0] - 0xD800) * 1024 + (e[1] - 0xDC00)) as u32) as char]
                + s.drop_first() =~= s);
        }
    }
}

/// Encodes a character sequence held in a string into UTF-16 code units.
pub fn str_to_utf16(s: &str) -> (r: Vec<u16>)
    ensures
        r@ == encode_utf16(s@),
{
    let n = s.unicode_len();
    let mut out: Vec<u16> = Vec::new();
    let mut i: usize = 0;
    while i < n
        invariant
            i <= n,
            n == s@.len(),
            out@ == encode_utf16(s@.take(i as int)),
        decreases n - i,
    {
        let c = s.get_char(i);
        let v = c as u32;
        proof {
            lemma_encode_concat(s@.take(i as int), seq![c]);
            assert(s@.take(i + 1) =~= s@.take(i as int) + seq![c]);
            assert(encode_utf16(seq![c]) =~= utf16_of_char(c)) by {
                assert(seq![c].drop_first() =~= Seq::<char>::empty());
                assert(encode_utf16(Seq::<char>::empty()) =~= Seq::<u16>::empty());
            }
            vstd::utf8::char_is_scalar(c);
        }
        if v < 0x10000 {
            out.push(v as u16);
            assert(out@ =~= encode_utf16(s@.take(i + 1)));
        } else {
            let w = v - 0x10000;
            proof {
                assert(v <= 0x10FFFF);
            }
            out.push((0xD800 + w / 1024) as u16);
            out.push((0xDC00 + w % 1024) as u16);
            assert(out@ =~= encode_utf16(s@.take(i + 1)));
        }
        i = i + 1;
    }
    assert(s@.take(n as int) =~= s@);
    r_identity(out)
}

fn r_identity(v: Vec<u16>) -> (r: Vec<u16>)
    ensures
        r == v,
{
    v
}

/// Appends one character to a string.
///
/// Calls `String::push`, which the standard library documents as appending the
/// character to the end of the string.
#[verifier::external_body]
pub fn push_char(s: &mut String, c: char)
    ensures
        final(s)@ == old(s)@.push(c),
{
    s.push(c)
}

/// Converts a code point to a character.
///
/// Calls `char::from_u32`, documented to return `None` exactly for surrogate
/// code points and values above `0x10FFFF`.
#[verifier::external_body]
pub fn char_from_u32(x: u32) -> (r: Option<char>)
    ensures
        r is Some <==> (x < 0xD800 || (0xE000 <= x && x <= 0x10FFFF)),
        r matches Some(c) ==> c as u32 == x,
{
    char::from_u32(x)
}

/// Strictly decodes UTF-16 code units into a string; `None` on an unpaired surrogate.
pub fn string_from_utf16(units: &[u16]) -> (r: Option<String>)
    ensures
        match decode_utf16(units@) {
            Some(s) => r matches Some(out) && out@ == s,
            None => r is None,
        },
{
    let mut out = String::new();
    let mut i: usize = 0;
    let n = units.len();
    assert(units@.skip(0) =~= units@);
    assert(out@ + Seq::<char>::empty() =~= Seq::<char>::empty());
    while i < n
        invariant
            i <= n,
            n == units@.len(),
            match decode_utf16(units@) {
                Some(full) => decode_utf16(units@.skip(i as int)) matches Some(rest) && full == out@ + rest,
                None => decode_utf16(units@.skip(i as int)) is None,
            },
        decreases n - i,
    {
        let u = units[i];
        let ghost tail = units@.skip(i as int);
        if u < 0xD800 || u >= 0xE000 {
            let c = match char_from_u32(u as u32) {
                Some(c) => c,
                None => { return None; }
            };
            assert(tail.drop_first() =~= units@.skip(i + 1));
            push_char(&mut out, c);
            proof {
                vstd::utf8::char_u32_cast(c, c as u32);
                if decode_utf16(units@) is Some {
                    let full = decode_utf16(units@)->0;
                    let rest = decode_utf16(tail)->0;
                    let rest2 = decode_utf16(units@.skip(i + 1))->0;
                    assert(rest == seq![c] + rest2);
                    assert(full =~= out@ + rest2);
                }
            }
            i = i + 1;
        } else if u < 0xDC00 && i + 1 < n && units[i + 1] >= 0xDC00 && units[i + 1] < 0xE000 {
            let hi = u as u32 - 0xD800;
            let lo = units[i + 1] as u32 - 0xDC00;
            let c = match char_from_u32(0x10000 + hi * 1024 + lo) {
                Some(c) => c,
                None => { return None; }
            };
            assert(tail.skip(2) =~= units@.skip(i + 2));
            push_char(&mut out, c);
            proof {
                vstd::utf8::char_u32_cast(c, c as u32);
                assert(tail[0] == u && tail[1] == units@[i + 1]);
                if decode_utf16(units@) is Some {
                    let full = decode_utf16(units@)->0;
                    let rest = decode_utf16(tail)->0;
                    let rest2 = decode_utf16(units@.skip(i + 2))->0;
                    assert(rest == seq![c] + rest2);
                    assert(full =~= out@ + rest2);
                }
            }
            i = i + 2;
        } else {
            return None;
        }
    }
    proof {
        assert(units@.skip(n as int) =~= Seq::<u16>::empty());
        if decode_utf16(units@) is Some {
            assert(out@ + seq![] =~= out@);
        }
    }
    Some(out)
}

} // verus!
