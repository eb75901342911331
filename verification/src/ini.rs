//! Reading sections and `key = value` settings out of the text of `d3dx.ini`.
use vstd::prelude::*;
use crate::text::{
    chars_of, eq_ignore_ascii_case, eq_ignore_case_range, find_char, find_seq, first_index,
    first_match, is_whitespace, lemma_first_index, lemma_trim_end_shape, lemma_trim_start_shape, match_at,
    lower_seq, lower_vec, same_chars, trim, trim_end, trim_range, trim_start,
};

verus! {

/// The header line that opens a section: `[` name `]`.
pub open spec fn section_header(section: Seq<char>) -> Seq<char> {
    seq!['['] + section + seq![']']
}

/// What `find_section` returns: the text after the line that holds the first
/// occurrence of the section header, the header being matched without regard
/// to ASCII case; `None` when the header does not occur.
pub open spec fn section_body(content: Seq<char>, section: Seq<char>) -> Option<Seq<char>> {
    let header = section_header(section);
    match first_match(lower_seq(content), lower_seq(header)) {
        None => None,
        Some(pos) => {
            let rest = content.skip(pos + header.len());
            match first_index(rest, '\n') {
                Some(nl) => Some(rest.skip(nl + 1)),
                None => Some(Seq::empty()),
            }
        },
    }
}

/// What one line of a section means to a lookup of `key`.
pub enum LineMeaning {
    /// The line opens the next section: the lookup ends there.
    EndOfSection,
    /// A blank line, a comment, a line without `=`, or another key.
    Skip,
    /// The line sets `key`; the value with its trailing comment and spaces removed.
    Value(Seq<char>),
}

/// The part of `s` before the first `c` (all of `s` when there is none).
pub open spec fn before_first(s: Seq<char>, c: char) -> Seq<char> {
    match first_index(s, c) {
        Some(i) => s.take(i),
        None => s,
    }
}

/// How one raw line (without its `\n`) of a section is read when looking up `key`.
pub open spec fn line_meaning(raw: Seq<char>, key: Seq<char>) -> LineMeaning {
    let t = trim(raw);
    if t.len() > 0 && t[0] == '[' {
        LineMeaning::EndOfSection
    } else if t.len() == 0 || t[0] == ';' || t[0] == '#' {
        LineMeaning::Skip
    } else {
        match first_index(t, '=') {
            None => LineMeaning::Skip,
            Some(eq) => if eq_ignore_ascii_case(trim(t.take(eq)), key) {
                LineMeaning::Value(trim(before_first(trim(t.skip(eq + 1)), ';')))
            } else {
                LineMeaning::Skip
            },
        }
    }
}

/// End of the line of `s` that starts at `start`: the position of the next `\n`, or the end of `s`.
pub open spec fn line_end(s: Seq<char>, start: int) -> int {
    match first_index(s.skip(start), '\n') {
        Some(i) => start + i,
        None => s.len() as int,
    }
}

/// The lookup of `key` in the lines of `s` from the line starting at `start` on.
pub open spec fn setting_from(s: Seq<char>, key: Seq<char>, start: int) -> Option<Seq<char>>
    decreases s.len() - start,
{
    if start < 0 || start > s.len() {
        None
    } else {
        let e = line_end(s, start);
        match line_meaning(s.subrange(start, e), key) {
            LineMeaning::EndOfSection => None,
            LineMeaning::Value(v) => Some(v),
            LineMeaning::Skip => if e < s.len() {
                proof {
                    lemma_first_index(s.skip(start), '\n');
                }
                setting_from(s, key, e + 1)
            } else {
                None
            },
        }
    }
}

/// What `find_setting` returns: the value of the first line of `section` that
/// sets `key` (compared without regard to ASCII case), looking no further than
/// the next line that opens a section.
pub open spec fn setting_value(section: Seq<char>, key: Seq<char>) -> Option<Seq<char>> {
    setting_from(section, key, 0)
}

/// The words that `find_bool` reads, compared after ASCII lower-casing.
pub open spec fn bool_word(v: Seq<char>) -> Option<bool> {
    let l = lower_seq(v);
    if l == seq!['1'] || l == seq!['t', 'r', 'u', 'e'] || l == seq!['y', 'e', 's'] || l == seq![
        'o',
        'n',
    ] {
        Some(true)
    } else if l == seq!['0'] || l == seq!['f', 'a', 'l', 's', 'e'] || l == seq!['n', 'o'] || l
        == seq!['o', 'f', 'f'] {
        Some(false)
    } else {
        None
    }
}

/// Whether `c` is an ASCII decimal digit.
pub open spec fn is_digit(c: char) -> bool {
    '0' <= c && c <= '9'
}

/// The number written by the decimal digits `d`.
pub open spec fn digits_value(d: Seq<char>) -> int
    decreases d.len(),
{
    if d.len() == 0 {
        0
    } else {
        digits_value(d.drop_last()) * 10 + (d.last() as int - '0' as int)
    }
}

/// The chars of `s` after an optional leading `+` or `-`.
pub open spec fn unsigned_part(s: Seq<char>) -> Seq<char> {
    if s.len() > 0 && (s[0] == '-' || s[0] == '+') {
        s.drop_first()
    } else {
        s
    }
}

/// `i32::from_str`: an optional `+` or `-`, then one or more ASCII digits,
/// nothing else, and a value that fits in an `i32`.
pub open spec fn parse_i32(s: Seq<char>) -> Option<i32> {
    let digits = unsigned_part(s);
    if digits.len() == 0 || !(forall|i: int| 0 <= i < digits.len() ==> is_digit(#[trigger] digits[i])) {
        None
    } else {
        let v = if s[0] == '-' {
            -digits_value(digits)
        } else {
            digits_value(digits)
        };
        if i32::MIN <= v <= i32::MAX {
            Some(v as i32)
        } else {
            None
        }
    }
}

/// What `find_bool` returns.
pub open spec fn bool_setting(section: Seq<char>, key: Seq<char>, default: bool) -> bool {
    match setting_value(section, key) {
        Some(v) => match bool_word(v) {
            Some(b) => b,
            None => default,
        },
        None => default,
    }
}

/// What `find_int` returns.
pub open spec fn int_setting(section: Seq<char>, key: Seq<char>, default: i32) -> i32 {
    match setting_value(section, key) {
        Some(v) => match parse_i32(v) {
            Some(n) => n,
            None => default,
        },
        None => default,
    }
}

/// Finds the section named `section` in `content` and returns the text that
/// follows its header line.
pub fn find_section<'a>(content: &'a str, section: &str) -> (r: Option<&'a str>)
    ensures
        match r {
            Some(body) => section_body(content@, section@) == Some(body@),
            None => section_body(content@, section@) is None,
        },
{
    let cs = chars_of(content);
    let sc = chars_of(section);
    let mut header: Vec<char> = Vec::new();
    header.push('[');
    let mut i: usize = 0;
    while i < sc.len()
        invariant
            i <= sc.len(),
            header@ == seq!['['] + sc@.take(i as int),
        decreases sc.len() - i,
    {
        header.push(sc[i]);
        i += 1;
        assert(seq!['['] + sc@.take(i as int) =~= (seq!['['] + sc@.take(i - 1)).push(sc@[i - 1]));
    }
    header.push(']');
    assert(sc@.take(sc.len() as int) =~= sc@);
    assert(header@ =~= section_header(section@));
    let lower_content = lower_vec(&cs);
    let lower_header = lower_vec(&header);
    match find_seq(&lower_content, &lower_header) {
        None => None,
        Some(pos) => {
            proof {
                crate::text::lemma_first_match(lower_content@, lower_header@);
            }
            assert(lower_header@.len() == header@.len());
            assert(lower_content@.len() == cs@.len());
            assert(match_at(lower_content@, lower_header@, pos as int));
            let n = cs.len();
            assert(pos + header@.len() <= n);
            let after = pos + header.len();
            let ghost rest = content@.skip(after as int);
            assert(cs@.subrange(after as int, cs.len() as int) =~= rest);
            match find_char(&cs, '\n', after, cs.len()) {
                Some(nl) => {
                    assert(rest.skip(nl - after + 1) =~= cs@.subrange(nl + 1, cs.len() as int));
                    Some(content.substring_char(nl + 1, cs.len()))
                },
                None => {
                    assert(cs@.subrange(cs.len() as int, cs.len() as int) =~= Seq::<char>::empty());
                    Some(content.substring_char(cs.len(), cs.len()))
                },
            }
        },
    }
}

/// What `classify_line` found on one line, as positions into the section's chars.
enum LineFound {
    EndOfSection,
    Skip,
    Value(usize, usize),
}

/// Reads the line `cs[start..end]` as a lookup of `key` does.
fn classify_line(cs: &Vec<char>, key: &Vec<char>, start: usize, end: usize) -> (r: LineFound)
    requires
        start <= end <= cs.len(),
    ensures
        match r {
            LineFound::EndOfSection => line_meaning(cs@.subrange(start as int, end as int), key@)
                is EndOfSection,
            LineFound::Skip => line_meaning(cs@.subrange(start as int, end as int), key@) is Skip,
            LineFound::Value(a, b) => a <= b <= cs.len() && line_meaning(
                cs@.subrange(start as int, end as int),
                key@,
            ) == LineMeaning::Value(cs@.subrange(a as int, b as int)),
        },
{
    let ghost raw = cs@.subrange(start as int, end as int);
    let (a, b) = trim_range(cs, start, end);
    let ghost t = cs@.subrange(a as int, b as int);
    assert(t == trim(raw));
    if a < b && cs[a] == '[' {
        return LineFound::EndOfSection;
    }
    if a == b || cs[a] == ';' || cs[a] == '#' {
        return LineFound::Skip;
    }
    match find_char(cs, '=', a, b) {
        None => LineFound::Skip,
        Some(eq) => {
            assert(t.take(eq - a) =~= cs@.subrange(a as int, eq as int));
            let (ka, kb) = trim_range(cs, a, eq);
            if !eq_ignore_case_range(cs, ka, kb, key) {
                return LineFound::Skip;
            }
            assert(t.skip(eq - a + 1) =~= cs@.subrange(eq + 1, b as int));
            let (va, vb) = trim_range(cs, eq + 1, b);
            let ghost v = cs@.subrange(va as int, vb as int);
            let stop = match find_char(cs, ';', va, vb) {
                Some(sc) => {
                    assert(v.take(sc - va) =~= cs@.subrange(va as int, sc as int));
                    sc
                },
                None => vb,
            };
            assert(before_first(v, ';') == cs@.subrange(va as int, stop as int));
            let (ra, rb) = trim_range(cs, va, stop);
            LineFound::Value(ra, rb)
        },
    }
}

/// Position of the end of the line of `cs` that starts at `start`.
fn line_end_at(cs: &Vec<char>, start: usize) -> (e: usize)
    requires
        start <= cs.len(),
    ensures
        start <= e <= cs.len(),
        e == line_end(cs@, start as int),
{
    assert(cs@.subrange(start as int, cs.len() as int) =~= cs@.skip(start as int));
    match find_char(cs, '\n', start, cs.len()) {
        Some(nl) => nl,
        None => cs.len(),
    }
}

/// Returns the value of `key` in `section`: the first line of the section
/// (up to the next `[...]` line) of the form `key = value`, the key compared
/// without regard to ASCII case; the value loses a trailing `;` comment and
/// surrounding whitespace. Lines starting with `;` or `#` are comments.
pub fn find_setting<'a>(section: &'a str, key: &str) -> (r: Option<&'a str>)
    ensures
        match r {
            Some(v) => setting_value(section@, key@) == Some(v@),
            None => setting_value(section@, key@) is None,
        },
{
    let cs = chars_of(section);
    let kc = chars_of(key);
    let mut start: usize = 0;
    loop
        invariant
            cs@ == section@,
            kc@ == key@,
            start <= cs.len(),
            setting_value(section@, key@) == setting_from(cs@, key@, start as int),
        decreases cs.len() - start,
    {
        let e = line_end_at(&cs, start);
        match classify_line(&cs, &kc, start, e) {
            LineFound::EndOfSection => {
                return None;
            },
            LineFound::Value(a, b) => {
                return Some(section.substring_char(a, b));
            },
            LineFound::Skip => {
                if e < cs.len() {
                    start = e + 1;
                } else {
                    return None;
                }
            },
        }
    }
}

/// Reads `key` as a boolean: `1`, `true`, `yes`, `on` and `0`, `false`, `no`,
/// `off` in any ASCII case; `default` when the key is missing or holds another word.
pub fn find_bool(section: &str, key: &str, default: bool) -> (r: bool)
    ensures
        r == bool_setting(section@, key@, default),
{
    match find_setting(section, key) {
        None => default,
        Some(v) => {
            let l = lower_vec(&chars_of(v));
            let one: &[char] = &['1'];
            let yes_true: &[char] = &['t', 'r', 'u', 'e'];
            let yes: &[char] = &['y', 'e', 's'];
            let on: &[char] = &['o', 'n'];
            let zero: &[char] = &['0'];
            let no_false: &[char] = &['f', 'a', 'l', 's', 'e'];
            let no: &[char] = &['n', 'o'];
            let off: &[char] = &['o', 'f', 'f'];
            assert(one@ == seq!['1']);
            assert(yes_true@ == seq!['t', 'r', 'u', 'e']);
            assert(yes@ == seq!['y', 'e', 's']);
            assert(on@ == seq!['o', 'n']);
            assert(zero@ == seq!['0']);
            assert(no_false@ == seq!['f', 'a', 'l', 's', 'e']);
            assert(no@ == seq!['n', 'o']);
            assert(off@ == seq!['o', 'f', 'f']);
            let is_true = same_chars(&l, one) || same_chars(&l, yes_true) || same_chars(&l, yes) || same_chars(&l, on);
            let is_false = same_chars(&l, zero) || same_chars(&l, no_false) || same_chars(&l, no) || same_chars(&l, off);
            assert(is_true == (bool_word(v@) == Some(true)));
            assert(!is_true ==> (is_false == (bool_word(v@) == Some(false))));
            if is_true {
                true
            } else if is_false {
                false
            } else {
                default
            }
        },
    }
}

/// `digits_value` of a prefix of a digit string is never negative and never
/// exceeds that of a longer prefix.
proof fn lemma_digits_value_grows(d: Seq<char>, j: int, k: int)
    requires
        0 <= j <= k <= d.len(),
        forall|i: int| 0 <= i < d.len() ==> is_digit(#[trigger] d[i]),
    ensures
        0 <= digits_value(d.take(j)) <= digits_value(d.take(k)),
    decreases k,
{
    if k > 0 {
        assert(d.take(k).drop_last() =~= d.take(k - 1));
        assert(is_digit(d[k - 1]));
        if j < k {
            lemma_digits_value_grows(d, j, k - 1);
        } else {
            lemma_digits_value_grows(d, k - 1, k - 1);
        }
    } else {
        assert(d.take(0).len() == 0);
    }
}

/// `i32::from_str` on the chars `s`.
pub fn parse_i32_chars(s: &Vec<char>) -> (r: Option<i32>)
    ensures
        r == parse_i32(s@),
{
    let first: usize = if s.len() > 0 && (s[0] == '-' || s[0] == '+') {
        1
    } else {
        0
    };
    let ghost digits = unsigned_part(s@);
    assert(digits =~= s@.skip(first as int));
    if first == s.len() {
        return None;
    }
    // First pass: every char must be a digit.
    let mut i: usize = first;
    while i < s.len()
        invariant
            first <= i <= s.len(),
            digits == s@.skip(first as int),
            digits == unsigned_part(s@),
            forall|j: int| 0 <= j < i - first ==> is_digit(#[trigger] digits[j]),
        decreases s.len() - i,
    {
        if !('0' <= s[i] && s[i] <= '9') {
            assert(!is_digit(digits[i - first]));
            return None;
        }
        i += 1;
    }
    // Second pass: the value, stopping as soon as it is out of range.
    let limit: i64 = 2147483648;
    let mut acc: i64 = 0;
    let mut k: usize = first;
    assert(digits.take(0) =~= Seq::<char>::empty());
    while k < s.len()
        invariant
            first <= k <= s.len(),
            digits == s@.skip(first as int),
            digits == unsigned_part(s@),
            digits.len() == s.len() - first,
            forall|j: int| 0 <= j < digits.len() ==> is_digit(#[trigger] digits[j]),
            0 <= acc <= limit,
            limit == 2147483648,
            acc == digits_value(digits.take(k - first)),
        decreases s.len() - k,
    {
        assert(is_digit(digits[k - first]));
        assert(digits[k - first] == s@[k as int]);
        let d = (s[k] as u32 - '0' as u32) as i64;
        assert(digits.take(k - first + 1).drop_last() =~= digits.take(k - first));
        assert(acc * 10 <= limit * 10) by (nonlinear_arith)
            requires
                0 <= acc <= limit,
        ;
        let next = acc * 10 + d;
        k += 1;
        if next > limit {
            proof {
                lemma_digits_value_grows(digits, k - first, digits.len() as int);
                assert(digits.take(digits.len() as int) =~= digits);
            }
            return None;
        }
        acc = next;
    }
    assert(digits.take(digits.len() as int) =~= digits);
    if s[0] == '-' {
        Some((-acc) as i32)
    } else if acc > 2147483647 {
        None
    } else {
        Some(acc as i32)
    }
}

/// Reads `key` as an `i32` (an optional sign and decimal digits); `default`
/// when the key is missing or its value is not such a number.
pub fn find_int(section: &str, key: &str, default: i32) -> (r: i32)
    ensures
        r == int_setting(section@, key@, default),
{
    match find_setting(section, key) {
        None => default,
        Some(v) => match parse_i32_chars(&chars_of(v)) {
            Some(n) => n,
            None => default,
        },
    }
}

/// The lookup from line `start` on depends on the key only up to ASCII case.
proof fn lemma_setting_from_key_case(s: Seq<char>, k1: Seq<char>, k2: Seq<char>, start: int)
    requires
        lower_seq(k1) == lower_seq(k2),
    ensures
        setting_from(s, k1, start) == setting_from(s, k2, start),
    decreases s.len() - start,
{
    if 0 <= start <= s.len() {
        let e = line_end(s, start);
        lemma_first_index(s.skip(start), '\n');
        if e < s.len() {
            lemma_setting_from_key_case(s, k1, k2, e + 1);
        }
    }
}

/// Setting names are matched without regard to ASCII case: two keys that
/// differ only in case find the same value.
pub proof fn setting_key_ignores_case(section: Seq<char>, k1: Seq<char>, k2: Seq<char>)
    requires
        lower_seq(k1) == lower_seq(k2),
    ensures
        setting_value(section, k1) == setting_value(section, k2),
{
    lemma_setting_from_key_case(section, k1, k2, 0);
}

/// Section names are matched without regard to ASCII case: two names that
/// differ only in case find the same section.
pub proof fn section_name_ignores_case(content: Seq<char>, s1: Seq<char>, s2: Seq<char>)
    requires
        lower_seq(s1) == lower_seq(s2),
    ensures
        section_body(content, s1) == section_body(content, s2),
{
    assert(lower_seq(section_header(s1)) =~= seq!['['] + lower_seq(s1) + seq![']']);
    assert(lower_seq(section_header(s2)) =~= seq!['['] + lower_seq(s2) + seq![']']);
}

/// A value as a setting yields it: no `;` in it, no whitespace at either end.
pub open spec fn is_clean_value(v: Seq<char>) -> bool {
    &&& forall|i: int| 0 <= i < v.len() ==> v[i] != ';'
    &&& v.len() > 0 ==> !is_whitespace(v[0]) && !is_whitespace(v.last())
}

/// `trim` keeps a contiguous part of its argument that starts and ends with a non-space.
proof fn lemma_trim_shape(s: Seq<char>)
    ensures
        exists|a: int, b: int| 0 <= a <= b <= s.len() && trim(s) == s.subrange(a, b),
        trim(s).len() > 0 ==> !is_whitespace(trim(s)[0]) && !is_whitespace(trim(s).last()),
{
    let ts = trim_start(s);
    lemma_trim_start_shape(s);
    lemma_trim_end_shape(ts);
    let a = s.len() - ts.len();
    let b = a + trim_end(ts).len();
    assert(trim(s) =~= s.subrange(a, b));
    if trim(s).len() > 0 {
        assert(trim(s)[0] == ts[0]);
    }
}

/// Every value that a lookup yields is clean.
proof fn lemma_setting_from_clean(s: Seq<char>, key: Seq<char>, start: int)
    ensures
        setting_from(s, key, start) matches Some(v) ==> is_clean_value(v),
    decreases s.len() - start,
{
    if 0 <= start <= s.len() {
        let e = line_end(s, start);
        lemma_first_index(s.skip(start), '\n');
        let t = trim(s.subrange(start, e));
        if let Some(eq) = first_index(t, '=') {
            let x = trim(t.skip(eq + 1));
            let b = before_first(x, ';');
            lemma_first_index(x, ';');
            assert forall|i: int| 0 <= i < b.len() implies b[i] != ';' by {
                if let Some(c) = first_index(x, ';') {
                    assert(b[i] == x[i]);
                }
            }
            lemma_trim_shape(b);
            let (p, q) = choose|p: int, q: int| 0 <= p <= q <= b.len() && trim(b) == b.subrange(p, q);
            assert forall|i: int| 0 <= i < trim(b).len() implies trim(b)[i] != ';' by {
                assert(trim(b)[i] == b[p + i]);
            }
        }
        if e < s.len() {
            lemma_setting_from_clean(s, key, e + 1);
        }
    }
}

/// A value read from a section never holds a `;` (the comment that follows
/// it is cut off) and never starts or ends with whitespace.
pub proof fn setting_values_are_clean(section: Seq<char>, key: Seq<char>)
    ensures
        setting_value(section, key) matches Some(v) ==> is_clean_value(v),
{
    lemma_setting_from_clean(section, key, 0);
}

/// The decimal digit for `d` (below 10).
pub open spec fn digit_char(d: nat) -> char {
    ('0' as u32 + d) as char
}

/// `n` written in decimal, most significant digit first, without leading zeros.
pub open spec fn decimal(n: nat) -> Seq<char>
    decreases n,
{
    if n < 10 {
        seq![digit_char(n)]
    } else {
        decimal(n / 10).push(digit_char(n % 10))
    }
}

/// The decimal digits of `n` are digits and are read back as `n`.
proof fn lemma_decimal_value(n: nat)
    ensures
        decimal(n).len() > 0,
        forall|i: int| 0 <= i < decimal(n).len() ==> is_digit(#[trigger] decimal(n)[i]),
        digits_value(decimal(n)) == n,
    decreases n,
{
    let c = digit_char(n % 10);
    vstd::utf8::char_u32_cast(c, ('0' as u32 + n % 10) as u32);
    assert(c as u32 == '0' as u32 + n % 10);
    assert(c as int - '0' as int == n % 10);
    assert(decimal(n).last() == c);
    if n < 10 {
        assert(decimal(n).drop_last() =~= Seq::<char>::empty());
        assert(digits_value(decimal(n)) == digits_value(decimal(n).drop_last()) * 10 + (c as int - '0' as int));
    } else {
        lemma_decimal_value(n / 10);
        let d = decimal(n);
        assert(d.drop_last() =~= decimal(n / 10));
        assert forall|i: int| 0 <= i < d.len() implies is_digit(#[trigger] d[i]) by {
            if i < d.len() - 1 {
                assert(d[i] == decimal(n / 10)[i]);
            }
        }
        assert(n == (n / 10) * 10 + n % 10);
        assert(digits_value(d) == digits_value(d.drop_last()) * 10 + (c as int - '0' as int));
    }
}

/// Reading a number written in decimal gives it back: every `i32`, written
/// with its digits (after a `-` when negative, or optionally a `+` when not),
/// parses to itself; in particular trailing zeros count (`20` is twenty).
pub proof fn decimal_round_trip(n: i32)
    ensures
        n >= 0 ==> parse_i32(decimal(n as nat)) == Some(n),
        n >= 0 ==> parse_i32(seq!['+'] + decimal(n as nat)) == Some(n),
        n < 0 ==> parse_i32(seq!['-'] + decimal((-n) as nat)) == Some(n),
{
    if n >= 0 {
        let d = decimal(n as nat);
        lemma_decimal_value(n as nat);
        assert(is_digit(d[0]));
        assert(unsigned_part(d) == d);
        let p = seq!['+'] + d;
        assert(p.drop_first() =~= d);
        assert(unsigned_part(p) == d);
    } else {
        let m = (-n) as nat;
        let d = decimal(m);
        lemma_decimal_value(m);
        let p = seq!['-'] + d;
        assert(p.drop_first() =~= d);
        assert(unsigned_part(p) == d);
    }
}

/// `trim` leaves a string alone when it does not start or end with whitespace.
proof fn lemma_trim_unchanged(s: Seq<char>)
    requires
        s.len() > 0 ==> !is_whitespace(s[0]) && !is_whitespace(s.last()),
    ensures
        trim(s) == s,
{
}

/// A value is cut only at `;`: in a line `key=value` whose key is a plain name
/// (no `=`, no line break, not starting with `[`, `;` or `#`, no whitespace at
/// its ends) and whose value holds no `;` or line break and has no whitespace
/// at its ends, the lookup of the key yields the value whole, inner spaces
/// included.
pub proof fn plain_value_read_whole(key: Seq<char>, value: Seq<char>)
    requires
        key.len() > 0,
        !is_whitespace(key[0]),
        !is_whitespace(key.last()),
        key[0] != '[' && key[0] != ';' && key[0] != '#',
        forall|i: int| 0 <= i < key.len() ==> key[i] != '=' && key[i] != '\n',
        forall|i: int| 0 <= i < value.len() ==> value[i] != ';' && value[i] != '\n',
        value.len() > 0 ==> !is_whitespace(value[0]) && !is_whitespace(value.last()),
    ensures
        setting_value(key + seq!['='] + value, key) == Some(value),
{
    let s = key + seq!['='] + value;
    let k = key.len() as int;
    assert(s[k] == '=');
    assert forall|i: int| 0 <= i < s.len() implies s[i] != '\n' by {
        if i < k {
            assert(s[i] == key[i]);
        } else if i > k {
            assert(s[i] == value[i - k - 1]);
        }
    }
    assert(s.skip(0) =~= s);
    lemma_first_index(s, '\n');
    assert(line_end(s, 0) == s.len());
    assert(s.subrange(0, s.len() as int) =~= s);
    assert(s[0] == key[0]);
    if value.len() > 0 {
        assert(s.last() == value.last());
    } else {
        assert(s.last() == '=');
    }
    lemma_trim_unchanged(s);
    assert forall|i: int| 0 <= i < k implies s[i] != '=' by {
        assert(s[i] == key[i]);
    }
    crate::text::lemma_first_index_is(s, '=', k);
    assert(s.take(k) =~= key);
    lemma_trim_unchanged(key);
    assert(s.skip(k + 1) =~= value);
    lemma_trim_unchanged(value);
    lemma_first_index(value, ';');
    assert(before_first(value, ';') == value);
}

/// Parsing succeeds only on an optional sign followed by one or more ASCII digits.
pub proof fn parse_accepts_only_digits(s: Seq<char>)
    ensures
        parse_i32(s) is Some ==> unsigned_part(s).len() > 0 && forall|i: int|
            0 <= i < unsigned_part(s).len() ==> '0' <= #[trigger] unsigned_part(s)[i] && unsigned_part(
                s,
            )[i] <= '9',
{
}

/// Leading zeros do not change the value of a digit string.
pub proof fn leading_zero_is_ignored(d: Seq<char>)
    ensures
        digits_value(seq!['0'] + d) == digits_value(d),
    decreases d.len(),
{
    if d.len() > 0 {
        leading_zero_is_ignored(d.drop_last());
        assert((seq!['0'] + d).drop_last() =~= seq!['0'] + d.drop_last());
        assert((seq!['0'] + d).last() == d.last());
        assert(digits_value(seq!['0'] + d) == digits_value(seq!['0'] + d.drop_last()) * 10 + (
        d.last() as int - '0' as int));
    } else {
        assert((seq!['0'] + d).drop_last() =~= Seq::<char>::empty());
        assert((seq!['0'] + d).last() == '0');
        assert(digits_value(Seq::<char>::empty()) == 0);
        assert(digits_value(seq!['0'] + d) == digits_value(Seq::<char>::empty()) * 10 + 0);
    }
}

/// The lookup from line `p.len() + j` of `p + s` is the lookup from line `j` of `s`
/// when `p` ends with a line break.
proof fn lemma_setting_from_shift(p: Seq<char>, s: Seq<char>, key: Seq<char>, j: int)
    requires
        0 <= j <= s.len(),
    ensures
        setting_from(p + s, key, p.len() + j) == setting_from(s, key, j),
    decreases s.len() - j,
{
    let w = p + s;
    let i = p.len() + j;
    assert(w.skip(i) =~= s.skip(j));
    lemma_first_index(s.skip(j), '\n');
    assert(line_end(w, i) == p.len() + line_end(s, j));
    assert(w.subrange(i, line_end(w, i)) =~= s.subrange(j, line_end(s, j)));
    let e = line_end(s, j);
    if e < s.len() {
        lemma_setting_from_shift(p, s, key, e + 1);
    }
}

/// Facts about a first line `c` put in front of `s`.
proof fn lemma_first_line(c: Seq<char>, s: Seq<char>)
    requires
        forall|i: int| 0 <= i < c.len() ==> c[i] != '\n',
    ensures
        line_end(c + seq!['\n'] + s, 0) == c.len(),
        (c + seq!['\n'] + s).subrange(0, c.len() as int) == c,
{
    let w = c + seq!['\n'] + s;
    assert(w.skip(0) =~= w);
    assert forall|i: int| 0 <= i < c.len() implies w[i] != '\n' by {
        assert(w[i] == c[i]);
    }
    assert(w[c.len() as int] == '\n');
    crate::text::lemma_first_index_is(w, '\n', c.len() as int);
    assert(w.subrange(0, c.len() as int) =~= c);
}

/// Blank lines and comment lines (starting, after whitespace, with `;` or
/// `#`) are passed over: putting one in front of a section changes no lookup.
pub proof fn comment_lines_are_skipped(c: Seq<char>, s: Seq<char>, key: Seq<char>)
    requires
        forall|i: int| 0 <= i < c.len() ==> c[i] != '\n',
        trim(c).len() == 0 || trim(c)[0] == ';' || trim(c)[0] == '#',
    ensures
        setting_value(c + seq!['\n'] + s, key) == setting_value(s, key),
{
    lemma_first_line(c, s);
    let p = c + seq!['\n'];
    assert(c + seq!['\n'] + s == p + s);
    lemma_setting_from_shift(p, s, key, 0);
}

/// A line that opens another section (starting, after whitespace, with `[`)
/// ends the lookup: nothing after it is found.
pub proof fn next_section_ends_lookup(c: Seq<char>, s: Seq<char>, key: Seq<char>)
    requires
        forall|i: int| 0 <= i < c.len() ==> c[i] != '\n',
        trim(c).len() > 0 && trim(c)[0] == '[',
    ensures
        setting_value(c + seq!['\n'] + s, key) is None,
{
    lemma_first_line(c, s);
}

/// A line setting another key (one that differs from `key` beyond ASCII
/// case) is passed over.
pub proof fn other_keys_are_skipped(other: Seq<char>, value: Seq<char>, s: Seq<char>, key: Seq<char>)
    requires
        !eq_ignore_ascii_case(other, key),
        other.len() > 0,
        !is_whitespace(other[0]),
        !is_whitespace(other.last()),
        other[0] != '[',
        forall|i: int| 0 <= i < other.len() ==> other[i] != '=' && other[i] != '\n',
        forall|i: int| 0 <= i < value.len() ==> value[i] != '\n',
        value.len() > 0 ==> !is_whitespace(value.last()),
    ensures
        setting_value(other + seq!['='] + value + seq!['\n'] + s, key) == setting_value(s, key),
{
    let c = other + seq!['='] + value;
    let k = other.len() as int;
    assert forall|i: int| 0 <= i < c.len() implies c[i] != '\n' by {
        if i < k {
            assert(c[i] == other[i]);
        } else if i > k {
            assert(c[i] == value[i - k - 1]);
        }
    }
    lemma_first_line(c, s);
    assert(c[0] == other[0]);
    if value.len() > 0 {
        assert(c.last() == value.last());
    } else {
        assert(c.last() == '=');
    }
    lemma_trim_unchanged(c);
    assert forall|i: int| 0 <= i < k implies c[i] != '=' by {
        assert(c[i] == other[i]);
    }
    assert(c[k] == '=');
    crate::text::lemma_first_index_is(c, '=', k);
    assert(c.take(k) =~= other);
    lemma_trim_unchanged(other);
    let p = c + seq!['\n'];
    assert(c + seq!['\n'] + s == p + s);
    lemma_setting_from_shift(p, s, key, 0);
}

} // verus!
