//! UTF-16 ("wide") strings as the Windows API takes and returns them.
use vstd::prelude::*;
use crate::text::push_char;

verus! {

/// Whether `u` is a UTF-16 surrogate unit.
pub open spec fn is_surrogate(u: u16) -> bool {
    0xD800 <= u <= 0xDFFF
}

/// Whether `u` opens a surrogate pair.
pub open spec fn is_high_surrogate(u: u16) -> bool {
    0xD800 <= u <= 0xDBFF
}

/// Whether `u` closes a surrogate pair.
pub open spec fn is_low_surrogate(u: u16) -> bool {
    0xDC00 <= u <= 0xDFFF
}

/// The UTF-16 code units of one char (`char::encode_utf16`).
pub open spec fn utf16_units(c: char) -> Seq<u16> {
    let v = c as u32;
    if v < 0x10000 {
        seq![v as u16]
    } else {
        let w = v - 0x10000;
        seq![(0xD800 + w / 0x400) as u16, (0xDC00 + w % 0x400) as u16]
    }
}

/// The UTF-16 encoding of a string (`str::encode_utf16`).
pub open spec fn encode_utf16(s: Seq<char>) -> Seq<u16>
    decreases s.len(),
{
    if s.len() == 0 {
        Seq::empty()
    } else {
        utf16_units(s[0]) + encode_utf16(s.drop_first())
    }
}

/// `String::from_utf16_lossy`: surrogate pairs are joined, any other
/// surrogate becomes U+FFFD, every other unit is the char of that value.
pub open spec fn decode_utf16_lossy(w: Seq<u16>) -> Seq<char>
    decreases w.len(),
{
    if w.len() == 0 {
        Seq::empty()
    } else if !is_surrogate(w[0]) {
        seq![(w[0] as u32) as char] + decode_utf16_lossy(w.drop_first())
    } else if is_high_surrogate(w[0]) && w.len() > 1 && is_low_surrogate(w[1]) {
        seq![
            (0x10000 + (w[0] - 0xD800) * 0x400 + (w[1] - 0xDC00)) as u32 as char,
        ] + decode_utf16_lossy(w.skip(2))
    } else {
        seq!['\u{FFFD}'] + decode_utf16_lossy(w.drop_first())
    }
}

/// The units of `w` before its first NUL (all of `w` when there is none).
pub open spec fn until_nul(w: Seq<u16>) -> Seq<u16>
    decreases w.len(),
{
    if w.len() == 0 || w[0] == 0 {
        Seq::empty()
    } else {
        seq![w[0]] + until_nul(w.drop_first())
    }
}

/// Encoding one more char appends its units.
proof fn lemma_encode_push(s: Seq<char>, c: char)
    ensures
        encode_utf16(s.push(c)) == encode_utf16(s) + utf16_units(c),
    decreases s.len(),
{
    if s.len() == 0 {
        assert(s.push(c).drop_first() =~= Seq::<char>::empty());
        assert(s.push(c)[0] == c);
        assert(encode_utf16(Seq::<char>::empty()) == Seq::<u16>::empty());
        assert(encode_utf16(s) == Seq::<u16>::empty());
        assert(encode_utf16(s.push(c)) =~= utf16_units(c) + Seq::<u16>::empty());
    } else {
        lemma_encode_push(s.drop_first(), c);
        assert(s.push(c).drop_first() =~= s.drop_first().push(c));
        assert(encode_utf16(s.push(c)) =~= utf16_units(s[0]) + (encode_utf16(s.drop_first())
            + utf16_units(c)));
    }
}

/// The units of one char never hold a NUL unless the char is NUL.
proof fn lemma_units_nonzero(c: char)
    requires
        c != '\0',
    ensures
        forall|i: int| 0 <= i < utf16_units(c).len() ==> utf16_units(c)[i] != 0,
{
    let v = c as u32;
    if v >= 0x10000 {
        let w = v - 0x10000;
        assert(w / 0x400 >= 0);
    } else {
        assert((v as u16) as u32 == v);
    }
}

/// A NUL-free unit string followed by anything: `until_nul` stops at the first NUL after it.
proof fn lemma_until_nul_prefix(a: Seq<u16>, b: Seq<u16>)
    requires
        forall|i: int| 0 <= i < a.len() ==> a[i] != 0,
    ensures
        until_nul(a + b) == a + until_nul(b),
    decreases a.len(),
{
    if a.len() > 0 {
        lemma_until_nul_prefix(a.drop_first(), b);
        assert((a + b).drop_first() =~= a.drop_first() + b);
        assert(a =~= seq![a[0]] + a.drop_first());
        assert((a + b)[0] == a[0]);
        assert(seq![a[0]] + (a.drop_first() + until_nul(b)) =~= a + until_nul(b));
    } else {
        assert(a + b =~= b);
        assert(a + until_nul(b) =~= until_nul(b));
    }
}

/// Decoding the units of one char in front of more units gives back that char first.
proof fn lemma_decode_units(c: char, rest: Seq<u16>)
    ensures
        decode_utf16_lossy(utf16_units(c) + rest) == seq![c] + decode_utf16_lossy(rest),
{
    let v = c as u32;
    let w = utf16_units(c) + rest;
    if v < 0x10000 {
        assert(w[0] == v as u16);
        assert((v as u16) as u32 == v);
        assert(w.drop_first() =~= rest);
    } else {
        let x = v - 0x10000;
        assert(0 <= x < 0x100000);
        let hi = x / 0x400;
        let lo = x % 0x400;
        assert(x == hi * 0x400 + lo) by (nonlinear_arith)
            requires
                hi == x / 0x400,
                lo == x % 0x400,
        ;
        assert(0 <= hi < 0x400 && 0 <= lo < 0x400) by (nonlinear_arith)
            requires
                hi == x / 0x400,
                lo == x % 0x400,
                0 <= x < 0x100000,
        ;
        assert(w[0] == (0xD800 + hi) as u16);
        assert(w[1] == (0xDC00 + lo) as u16);
        assert(w.skip(2) =~= rest);
        assert(0x10000 + (w[0] - 0xD800) * 0x400 + (w[1] - 0xDC00) == v);
    }
}

/// Decoding the encoding of a string gives the string back.
proof fn lemma_decode_encode(s: Seq<char>)
    ensures
        decode_utf16_lossy(encode_utf16(s)) == s,
    decreases s.len(),
{
    if s.len() > 0 {
        lemma_decode_encode(s.drop_first());
        lemma_decode_units(s[0], encode_utf16(s.drop_first()));
        assert(seq![s[0]] + s.drop_first() =~= s);
    }
}

/// The encoding of a string without NUL chars holds no NUL unit.
proof fn lemma_encode_nonzero(s: Seq<char>)
    requires
        !s.contains('\0'),
    ensures
        forall|i: int| 0 <= i < encode_utf16(s).len() ==> encode_utf16(s)[i] != 0,
    decreases s.len(),
{
    if s.len() > 0 {
        assert(s[0] != '\0') by {
            assert(s.contains(s[0]));
        }
        assert(!s.drop_first().contains('\0')) by {
            if s.drop_first().contains('\0') {
                let k = choose|k: int| 0 <= k < s.drop_first().len() && s.drop_first()[k] == '\0';
                assert(s[k + 1] == '\0');
            }
        }
        lemma_encode_nonzero(s.drop_first());
        lemma_units_nonzero(s[0]);
        let u = utf16_units(s[0]);
        let r = encode_utf16(s.drop_first());
        assert forall|i: int| 0 <= i < (u + r).len() implies (u + r)[i] != 0 by {
            if i >= u.len() {
                assert((u + r)[i] == r[i - u.len()]);
            }
        }
    }
}

/// A string without NUL chars survives the trip through a NUL-terminated wide
/// string: `wstr_to_string` reads back what `to_wide` wrote.
pub proof fn wide_round_trip(s: Seq<char>)
    requires
        !s.contains('\0'),
    ensures
        decode_utf16_lossy(until_nul(encode_utf16(s).push(0))) == s,
{
    let e = encode_utf16(s);
    lemma_encode_nonzero(s);
    lemma_until_nul_prefix(e, seq![0u16]);
    assert(e.push(0) =~= e + seq![0u16]);
    assert(until_nul(seq![0u16]) =~= Seq::<u16>::empty());
    assert(e + Seq::<u16>::empty() =~= e);
    lemma_decode_encode(s);
}

/// `char::from_u32`: the char with the given value, `None` for a surrogate
/// value or one above `0x10FFFF`.
#[verifier::external_body]
fn char_from_u32(v: u32) -> (r: Option<char>)
    ensures
        match r {
            Some(c) => c as u32 == v,
            None => 0xD800 <= v <= 0xDFFF || v > 0x10FFFF,
        },
{
    char::from_u32(v)
}

/// The UTF-16 encoding of `s` followed by a terminating NUL, as the `W`
/// functions of the Windows API take strings.
pub fn to_wide(s: &str) -> (r: Vec<u16>)
    ensures
        r@ == encode_utf16(s@).push(0),
{
    let cs = crate::text::chars_of(s);
    let mut r: Vec<u16> = Vec::new();
    let mut i: usize = 0;
    assert(encode_utf16(cs@.take(0)) =~= Seq::<u16>::empty());
    while i < cs.len()
        invariant
            i <= cs.len(),
            r@ == encode_utf16(cs@.take(i as int)),
        decreases cs.len() - i,
    {
        let c = cs[i];
        let v = c as u32;
        proof {
            lemma_encode_push(cs@.take(i as int), c);
            assert(cs@.take(i + 1) =~= cs@.take(i as int).push(c));
        }
        if v < 0x10000 {
            r.push(v as u16);
            assert(r@ =~= encode_utf16(cs@.take(i as int)) + utf16_units(c));
        } else {
            let w = v - 0x10000;
            r.push((0xD800 + w / 0x400) as u16);
            r.push((0xDC00 + w % 0x400) as u16);
            assert(r@ =~= encode_utf16(cs@.take(i as int)) + utf16_units(c));
        }
        i += 1;
    }
    assert(cs@.take(cs.len() as int) =~= cs@);
    r.push(0);
    r
}

/// Reads a NUL-terminated wide string as the Windows API fills it into a
/// fixed buffer: the units before the first NUL, decoded with U+FFFD in place
/// of unpaired surrogates.
pub fn wstr_to_string(slice: &[u16]) -> (r: String)
    ensures
        r@ == decode_utf16_lossy(until_nul(slice@)),
{
    let mut end: usize = 0;
    assert(slice@.skip(0) =~= slice@);
    assert(slice@.take(0) + until_nul(slice@) =~= until_nul(slice@));
    while end < slice.len() && slice[end] != 0
        invariant
            end <= slice.len(),
            until_nul(slice@) == slice@.take(end as int) + until_nul(slice@.skip(end as int)),
        decreases slice.len() - end,
    {
        proof {
            let t = slice@.skip(end as int);
            assert(t.drop_first() =~= slice@.skip(end + 1));
            assert(slice@.take(end + 1) =~= slice@.take(end as int) + seq![t[0]]);
            assert(slice@.take(end as int) + (seq![t[0]] + until_nul(t.drop_first())) =~= slice@.take(
                end + 1,
            ) + until_nul(slice@.skip(end + 1)));
        }
        end += 1;
    }
    let ghost w = slice@.take(end as int);
    assert(until_nul(slice@.skip(end as int)) =~= Seq::<u16>::empty());
    assert(until_nul(slice@) =~= w);
    let mut out = String::new();
    let mut i: usize = 0;
    assert(w.skip(0) =~= w);
    assert(out@ + decode_utf16_lossy(w) =~= decode_utf16_lossy(w));
    while i < end
        invariant
            end <= slice.len(),
            w == slice@.take(end as int),
            i <= end,
            decode_utf16_lossy(w) == out@ + decode_utf16_lossy(w.skip(i as int)),
        decreases end - i,
    {
        let ghost rest = w.skip(i as int);
        let u = slice[i];
        assert(rest[0] == u);
        if !(0xD800 <= u && u <= 0xDFFF) {
            let c = match char_from_u32(u as u32) {
                Some(c) => c,
                None => '\u{FFFD}',
            };
            proof {
                vstd::utf8::char_u32_cast(c, u as u32);
            }
            assert(c == (u as u32) as char);
            assert(rest.drop_first() =~= w.skip(i + 1));
            push_char(&mut out, c);
            i += 1;
            assert(out@ + decode_utf16_lossy(w.skip(i as int)) =~= (out@.drop_last() + seq![c])
                + decode_utf16_lossy(w.skip(i as int)));
        } else if u <= 0xDBFF && i + 1 < end && 0xDC00 <= slice[i + 1] && slice[i + 1] <= 0xDFFF {
            let lo = slice[i + 1];
            assert(rest[1] == lo);
            let v: u32 = 0x10000 + ((u as u32) - 0xD800) * 0x400 + ((lo as u32) - 0xDC00);
            let c = match char_from_u32(v) {
                Some(c) => c,
                None => '\u{FFFD}',
            };
            proof {
                vstd::utf8::char_u32_cast(c, v);
            }
            assert(c == v as char);
            assert(rest.skip(2) =~= w.skip(i + 2));
            push_char(&mut out, c);
            i += 2;
            assert(out@ + decode_utf16_lossy(w.skip(i as int)) =~= (out@.drop_last() + seq![c])
                + decode_utf16_lossy(w.skip(i as int)));
        } else {
            assert(rest.drop_first() =~= w.skip(i + 1));
            push_char(&mut out, '\u{FFFD}');
            i += 1;
            assert(out@ + decode_utf16_lossy(w.skip(i as int)) =~= (out@.drop_last() + seq![
                '\u{FFFD}',
            ]) + decode_utf16_lossy(w.skip(i as int)));
        }
    }
    assert(w.skip(end as int) =~= Seq::<u16>::empty());
    assert(out@ + Seq::<char>::empty() =~= out@);
    out
}

} // verus!
