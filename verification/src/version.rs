//! Reading the version resource of the 3DMigoto module: its translation
//! table, its file description and its product version.
use vstd::prelude::*;
use vstd::string::StringSliceAdditionalSpecFns;
use vstd::utf8::{decode_utf8, valid_utf8};
use crate::text::{chars_of, push_char};

verus! {

/// The little-endian `u16` in `lo`, `hi`.
pub open spec fn le_u16(lo: u8, hi: u8) -> u16 {
    (lo as int + hi as int * 256) as u16
}

/// Entry `i` of a `\VarFileInfo\Translation` table: a language and a code
/// page, two little-endian `u16` each.
pub open spec fn translation_at(b: Seq<u8>, i: int) -> (u16, u16) {
    (le_u16(b[4 * i], b[4 * i + 1]), le_u16(b[4 * i + 2], b[4 * i + 3]))
}

/// Splits the bytes of a `\VarFileInfo\Translation` value into its
/// (language, code page) entries; trailing bytes short of an entry are ignored.
pub fn parse_translations(bytes: &[u8]) -> (r: Vec<(u16, u16)>)
    ensures
        r.len() == bytes.len() / 4,
        forall|i: int| 0 <= i < r.len() ==> r@[i] == translation_at(bytes@, i),
{
    let count = bytes.len() / 4;
    let mut r: Vec<(u16, u16)> = Vec::new();
    let mut i: usize = 0;
    while i < count
        invariant
            count == bytes.len() / 4,
            i <= count,
            r.len() == i,
            forall|j: int| 0 <= j < i ==> r@[j] == translation_at(bytes@, j),
        decreases count - i,
    {
        let at = 4 * i;
        let lang = (bytes[at] as u16) + (bytes[at + 1] as u16) * 256;
        let code_page = (bytes[at + 2] as u16) + (bytes[at + 3] as u16) * 256;
        r.push((lang, code_page));
        i += 1;
    }
    r
}

/// The lower-case hexadecimal digit for `d`.
pub open spec fn hex_digit(d: int) -> char {
    if d < 10 {
        ('0' as int + d) as char
    } else {
        ('a' as int + d - 10) as char
    }
}

/// `v` as four lower-case hexadecimal digits (`{:04x}`).
pub open spec fn hex4(v: u16) -> Seq<char> {
    let x = v as int;
    seq![hex_digit(x / 4096), hex_digit((x / 256) % 16), hex_digit((x / 16) % 16), hex_digit(x % 16)]
}

/// The `VerQueryValue` sub-block that holds the file description in the given translation.
pub open spec fn description_query_of(lang: u16, code_page: u16) -> Seq<char> {
    "\\StringFileInfo\\"@ + hex4(lang) + hex4(code_page) + "\\FileDescription"@
}

/// The lower-case hexadecimal digit for `d`.
fn hex_digit_char(d: u16) -> (c: char)
    requires
        d < 16,
    ensures
        c == hex_digit(d as int),
{
    if d < 10 {
        ((d as u8) + 48) as char
    } else {
        ((d as u8) + 87) as char
    }
}

/// Appends `v` to `s` as four lower-case hexadecimal digits.
fn push_hex4(s: &mut String, v: u16)
    ensures
        final(s)@ == old(s)@ + hex4(v),
{
    push_char(s, hex_digit_char(v / 4096));
    push_char(s, hex_digit_char((v / 256) % 16));
    push_char(s, hex_digit_char((v / 16) % 16));
    push_char(s, hex_digit_char(v % 16));
    assert(final(s)@ =~= old(s)@ + hex4(v));
}

/// `\StringFileInfo\<lang><code page>\FileDescription`, the sub-block that
/// holds the file description for one translation.
pub fn description_query(lang: u16, code_page: u16) -> (r: String)
    ensures
        r@ == description_query_of(lang, code_page),
{
    let mut r = String::from_str("\\StringFileInfo\\");
    push_hex4(&mut r, lang);
    push_hex4(&mut r, code_page);
    r.append("\\FileDescription");
    r
}

/// `std::str::from_utf8`: the text of `bytes` when they are valid UTF-8.
#[verifier::external_body]
fn str_from_utf8(bytes: &[u8]) -> (r: Option<&str>)
    ensures
        match r {
            Some(s) => valid_utf8(bytes@) && s.spec_bytes() == bytes@,
            None => !valid_utf8(bytes@),
        },
{
    std::str::from_utf8(bytes).ok()
}

/// `s` without its trailing NUL chars.
pub open spec fn trim_trailing_nul(s: Seq<char>) -> Seq<char>
    decreases s.len(),
{
    if s.len() > 0 && s.last() == '\0' {
        trim_trailing_nul(s.drop_last())
    } else {
        s
    }
}

/// The description text of a `FileDescription` value: its UTF-8 text (empty
/// when it is not valid UTF-8) without trailing NULs.
pub open spec fn description_of(bytes: Seq<u8>) -> Seq<char> {
    trim_trailing_nul(if valid_utf8(bytes) { decode_utf8(bytes) } else { Seq::empty() })
}

/// Reads a `FileDescription` value as text.
pub fn description_text(bytes: &[u8]) -> (r: &str)
    ensures
        r@ == description_of(bytes@),
{
    let s: &str = match str_from_utf8(bytes) {
        Some(s) => {
            proof {
                vstd::utf8::encode_utf8_decode_utf8(s@);
            }
            s
        },
        None => "",
    };
    proof {
        reveal_strlit("");
    }
    let cs = chars_of(s);
    let mut end = cs.len();
    assert(cs@.take(end as int) =~= cs@);
    while end > 0 && cs[end - 1] == '\0'
        invariant
            end <= cs.len(),
            trim_trailing_nul(cs@) == trim_trailing_nul(cs@.take(end as int)),
        decreases end,
    {
        assert(cs@.take(end as int).drop_last() =~= cs@.take(end - 1));
        end -= 1;
    }
    assert(cs@.take(end as int) =~= cs@.subrange(0, end as int));
    s.substring_char(0, end)
}

/// Whether a file description names 3DMigoto: it starts with `3Dmigoto`.
pub fn is_3dmigoto(desc: &str) -> (r: bool)
    ensures
        r == "3Dmigoto"@.is_prefix_of(desc@),
{
    let d = chars_of(desc);
    let p = chars_of("3Dmigoto");
    if p.len() > d.len() {
        return false;
    }
    let mut i: usize = 0;
    while i < p.len()
        invariant
            d@ == desc@,
            p@ == "3Dmigoto"@,
            p.len() <= d.len(),
            i <= p.len(),
            forall|j: int| 0 <= j < i ==> d@[j] == p@[j],
        decreases p.len() - i,
    {
        if d[i] != p[i] {
            assert(d@.subrange(0, p@.len() as int)[i as int] != p@[i as int]);
            return false;
        }
        i += 1;
    }
    true
}

/// The (major, minor, patch) product version in the two halves of a fixed
/// version record.
pub open spec fn product_version_of(ms: u32, ls: u32) -> (u32, u32, u32) {
    ((ms / 0x10000) as u32, (ms % 0x10000) as u32, (ls / 0x10000) as u32)
}

/// Splits the product version of a fixed version record into its (major, minor, patch) parts.
pub fn product_version(ms: u32, ls: u32) -> (r: (u32, u32, u32))
    ensures
        r == product_version_of(ms, ls),
{
    let major = ms >> 16;
    let minor = ms & 0xffff;
    let patch = ls >> 16;
    assert(major == ms / 0x10000 && minor == ms % 0x10000 && patch == ls / 0x10000) by (bit_vector)
        requires
            major == ms >> 16,
            minor == ms & 0xffff,
            patch == ls >> 16,
    ;
    (major, minor, patch)
}

/// The oldest 3DMigoto that may be loaded is 1.3.15: product version words
/// below `0x0001_0003`, `0x000f_0000`.
pub open spec fn version_too_old(ms: u32, ls: u32) -> bool {
    ms < 0x0001_0003 || (ms == 0x0001_0003 && ls < 0x000f_0000)
}

/// Whether the module's product version is older than 1.3.15.
pub fn is_too_old(ms: u32, ls: u32) -> (r: bool)
    ensures
        r == version_too_old(ms, ls),
{
    ms < 0x0001_0003 || (ms == 0x0001_0003 && ls < 0x000f_0000)
}

/// `(a, b, c)` comes before `(x, y, z)` in version order.
pub open spec fn version_before(v: (u32, u32, u32), w: (u32, u32, u32)) -> bool {
    ||| v.0 < w.0
    ||| (v.0 == w.0 && v.1 < w.1)
    ||| (v.0 == w.0 && v.1 == w.1 && v.2 < w.2)
}

/// A module is refused as too old exactly when its product version comes
/// before 1.3.15.
pub proof fn too_old_is_before_1_3_15(ms: u32, ls: u32)
    ensures
        version_too_old(ms, ls) <==> version_before(product_version_of(ms, ls), (1, 3, 15)),
{
    let v = product_version_of(ms, ls);
    assert(ms == v.0 * 0x10000 + v.1 && v.1 < 0x10000 && ls / 0x10000 == v.2 && v.2 * 0x10000 <= ls
        < v.2 * 0x10000 + 0x10000) by (nonlinear_arith)
        requires
            v.0 == ms / 0x10000,
            v.1 == ms % 0x10000,
            v.2 == ls / 0x10000,
    ;
}

} // verus!
