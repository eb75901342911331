//! Character-level text model shared by the INI reader and the path helpers:
//! ASCII case folding, Unicode whitespace trimming and first-occurrence search,
//! each stated over `Seq<char>` and implemented over `Vec<char>`.
use vstd::prelude::*;

verus! {

/// `char::is_whitespace`: the characters with the Unicode `White_Space` property.
pub open spec fn is_whitespace(c: char) -> bool {
    ||| c == ' '
    ||| ('\t' <= c && c <= '\r')
    ||| c == '\u{85}'
    ||| c == '\u{a0}'
    ||| c == '\u{1680}'
    ||| ('\u{2000}' <= c && c <= '\u{200a}')
    ||| c == '\u{2028}'
    ||| c == '\u{2029}'
    ||| c == '\u{202f}'
    ||| c == '\u{205f}'
    ||| c == '\u{3000}'
}

/// `char::to_ascii_lowercase`: maps `'A'..='Z'` to `'a'..='z'`, every other char to itself.
pub open spec fn ascii_lower(c: char) -> char {
    if 'A' <= c && c <= 'Z' {
        ((c as u32) + 32) as char
    } else {
        c
    }
}

/// `str::to_ascii_lowercase`, char by char.
pub open spec fn lower_seq(s: Seq<char>) -> Seq<char> {
    s.map_values(|c: char| ascii_lower(c))
}

/// `str::eq_ignore_ascii_case`.
pub open spec fn eq_ignore_ascii_case(a: Seq<char>, b: Seq<char>) -> bool {
    lower_seq(a) == lower_seq(b)
}

/// `str::trim_start`: drops the leading whitespace.
pub open spec fn trim_start(s: Seq<char>) -> Seq<char>
    decreases s.len(),
{
    if s.len() > 0 && is_whitespace(s[0]) {
        trim_start(s.drop_first())
    } else {
        s
    }
}

/// `str::trim_end`: drops the trailing whitespace.
pub open spec fn trim_end(s: Seq<char>) -> Seq<char>
    decreases s.len(),
{
    if s.len() > 0 && is_whitespace(s.last()) {
        trim_end(s.drop_last())
    } else {
        s
    }
}

/// `str::trim`: drops whitespace at both ends.
pub open spec fn trim(s: Seq<char>) -> Seq<char> {
    trim_end(trim_start(s))
}

/// Position of the first `c` in `s` (`str::find` with a char pattern, counted in chars).
pub open spec fn first_index<A>(s: Seq<A>, c: A) -> Option<int>
    decreases s.len(),
{
    if s.len() == 0 {
        None
    } else if s[0] == c {
        Some(0)
    } else {
        match first_index(s.drop_first(), c) {
            Some(i) => Some(i + 1),
            None => None,
        }
    }
}

/// Position of the last `c` in `s` (`str::rfind` with a char pattern, counted in chars).
pub open spec fn last_index<A>(s: Seq<A>, c: A) -> Option<int>
    decreases s.len(),
{
    if s.len() == 0 {
        None
    } else if s.last() == c {
        Some(s.len() - 1)
    } else {
        last_index(s.drop_last(), c)
    }
}

/// What `last_index` returns: the greatest position holding `c`, or `None` when `c` is absent.
pub proof fn lemma_last_index<A>(s: Seq<A>, c: A)
    ensures
        match last_index(s, c) {
            Some(i) => 0 <= i < s.len() && s[i] == c && forall|j: int| i < j < s.len() ==> s[j] != c,
            None => forall|j: int| 0 <= j < s.len() ==> s[j] != c,
        },
    decreases s.len(),
{
    if s.len() > 0 && s.last() != c {
        let t = s.drop_last();
        lemma_last_index(t, c);
        assert forall|j: int| 0 <= j < t.len() implies s[j] == t[j] by {}
        assert(s[s.len() - 1] != c);
    }
}

/// `pat` occurs in `hay` starting at `i`.
pub open spec fn match_at(hay: Seq<char>, pat: Seq<char>, i: int) -> bool {
    0 <= i && i + pat.len() <= hay.len() && hay.subrange(i, i + pat.len()) == pat
}

/// Position of the first occurrence of `pat` in `hay` (`str::find` with a string pattern).
pub open spec fn first_match(hay: Seq<char>, pat: Seq<char>) -> Option<int>
    decreases hay.len(),
{
    if hay.len() < pat.len() {
        None
    } else if hay.take(pat.len() as int) == pat {
        Some(0)
    } else if hay.len() == 0 {
        None
    } else {
        match first_match(hay.drop_first(), pat) {
            Some(i) => Some(i + 1),
            None => None,
        }
    }
}

/// What `first_index` returns: the least position holding `c`, or `None` when `c` is absent.
pub proof fn lemma_first_index<A>(s: Seq<A>, c: A)
    ensures
        match first_index(s, c) {
            Some(i) => 0 <= i < s.len() && s[i] == c && forall|j: int| 0 <= j < i ==> s[j] != c,
            None => forall|j: int| 0 <= j < s.len() ==> s[j] != c,
        },
    decreases s.len(),
{
    if s.len() > 0 && s[0] != c {
        lemma_first_index(s.drop_first(), c);
        match first_index(s.drop_first(), c) {
            Some(i) => {
                assert forall|j: int| 0 <= j < i + 1 implies s[j] != c by {
                    if j > 0 {
                        assert(s[j] == s.drop_first()[j - 1]);
                    }
                }
            },
            None => {
                assert forall|j: int| 0 <= j < s.len() implies s[j] != c by {
                    if j > 0 {
                        assert(s[j] == s.drop_first()[j - 1]);
                    }
                }
            },
        }
    }
}

/// The characterisation of `lemma_first_index` determines `first_index`.
pub proof fn lemma_first_index_is<A>(s: Seq<A>, c: A, i: int)
    requires
        0 <= i < s.len(),
        s[i] == c,
        forall|j: int| 0 <= j < i ==> s[j] != c,
    ensures
        first_index(s, c) == Some(i),
{
    lemma_first_index(s, c);
}

/// What `first_match` returns: the least position where `pat` occurs, or `None` when it never does.
pub proof fn lemma_first_match(hay: Seq<char>, pat: Seq<char>)
    ensures
        match first_match(hay, pat) {
            Some(i) => match_at(hay, pat, i) && forall|j: int| 0 <= j < i ==> !match_at(hay, pat, j),
            None => forall|j: int| !match_at(hay, pat, j),
        },
    decreases hay.len(),
{
    if hay.len() < pat.len() {
    } else if hay.take(pat.len() as int) == pat {
        assert(hay.subrange(0, pat.len() as int) == hay.take(pat.len() as int));
    } else if hay.len() == 0 {
        assert(hay.take(0) =~= pat);
    } else {
        let tail = hay.drop_first();
        lemma_first_match(tail, pat);
        assert forall|j: int| 0 <= j && match_at(tail, pat, j) <==> match_at(hay, pat, j + 1) by {
            if 0 <= j && j + pat.len() <= tail.len() {
                assert(tail.subrange(j, j + pat.len()) =~= hay.subrange(j + 1, j + 1 + pat.len()));
            }
        }
        assert(!match_at(hay, pat, 0)) by {
            if match_at(hay, pat, 0) {
                assert(hay.subrange(0, pat.len() as int) =~= hay.take(pat.len() as int));
            }
        }
        match first_match(tail, pat) {
            Some(i) => {
                assert(match_at(tail, pat, i));
                assert forall|j: int| 0 <= j < i + 1 implies !match_at(hay, pat, j) by {
                    if j > 0 {
                        assert(!match_at(tail, pat, j - 1));
                    }
                }
            },
            None => {
                assert forall|j: int| !match_at(hay, pat, j) by {
                    if j > 0 {
                        assert(!match_at(tail, pat, j - 1));
                    }
                }
            },
        }
    }
}

/// The characterisation of `lemma_first_match` determines `first_match`.
pub proof fn lemma_first_match_is(hay: Seq<char>, pat: Seq<char>, i: int)
    requires
        match_at(hay, pat, i),
        forall|j: int| 0 <= j < i ==> !match_at(hay, pat, j),
    ensures
        first_match(hay, pat) == Some(i),
{
    lemma_first_match(hay, pat);
}

/// `trim_start` only drops whitespace: what is left is empty or starts with a non-space.
pub proof fn lemma_trim_start_shape(s: Seq<char>)
    ensures
        trim_start(s).len() <= s.len(),
        trim_start(s) == s.skip(s.len() - trim_start(s).len()),
        trim_start(s).len() > 0 ==> !is_whitespace(trim_start(s)[0]),
    decreases s.len(),
{
    if s.len() > 0 && is_whitespace(s[0]) {
        lemma_trim_start_shape(s.drop_first());
        assert(s.drop_first().skip(s.drop_first().len() - trim_start(s).len()) =~= s.skip(
            s.len() - trim_start(s).len(),
        ));
    } else {
        assert(s.skip(0) =~= s);
    }
}

/// `trim_end` only drops whitespace: what is left is empty or ends with a non-space.
pub proof fn lemma_trim_end_shape(s: Seq<char>)
    ensures
        trim_end(s).len() <= s.len(),
        trim_end(s) == s.take(trim_end(s).len() as int),
        trim_end(s).len() > 0 ==> !is_whitespace(trim_end(s).last()),
    decreases s.len(),
{
    if s.len() > 0 && is_whitespace(s.last()) {
        lemma_trim_end_shape(s.drop_last());
        assert(s.drop_last().take(trim_end(s).len() as int) =~= s.take(trim_end(s).len() as int));
    } else {
        assert(s.take(s.len() as int) =~= s);
    }
}

/// `x` and `y` are the same char up to ASCII case: equal, or an upper-case
/// ASCII letter and the letter 32 code points above it.
pub open spec fn same_ignoring_ascii_case(x: char, y: char) -> bool {
    ||| x == y
    ||| ('A' <= x && x <= 'Z' && y as u32 == x as u32 + 32)
    ||| ('A' <= y && y <= 'Z' && x as u32 == y as u32 + 32)
}

/// ASCII lower-casing moves every letter `'A'..='Z'` 32 code points up to its
/// lower-case letter and leaves every other char alone.
pub proof fn ascii_lower_maps_letters(c: char)
    ensures
        'A' <= c && c <= 'Z' ==> ascii_lower(c) as u32 == c as u32 + 32,
        !('A' <= c && c <= 'Z') ==> ascii_lower(c) == c,
        'a' <= ascii_lower(c) && ascii_lower(c) <= 'z' <== ('A' <= c && c <= 'Z'),
{
}

/// Lower-casing makes two strings equal exactly when they are the same up
/// to ASCII case, char by char.
pub proof fn lower_equal_iff_same_ignoring_case(a: Seq<char>, b: Seq<char>)
    ensures
        lower_seq(a) == lower_seq(b) <==> (a.len() == b.len() && forall|i: int|
            0 <= i < a.len() ==> #[trigger] same_ignoring_ascii_case(a[i], b[i])),
{
    if a.len() == b.len() && forall|i: int| 0 <= i < a.len() ==> #[trigger] same_ignoring_ascii_case(a[i], b[i]) {
        assert forall|i: int| 0 <= i < a.len() implies lower_seq(a)[i] == lower_seq(b)[i] by {
            assert(same_ignoring_ascii_case(a[i], b[i]));
            vstd::utf8::char_u32_cast(b[i], b[i] as u32);
            vstd::utf8::char_u32_cast(a[i], a[i] as u32);
        }
        assert(lower_seq(a) =~= lower_seq(b));
    }
    if lower_seq(a) == lower_seq(b) {
        assert(lower_seq(a).len() == a.len() && lower_seq(b).len() == b.len());
        assert forall|i: int| 0 <= i < a.len() implies #[trigger] same_ignoring_ascii_case(a[i], b[i]) by {
            assert(lower_seq(a)[i] == lower_seq(b)[i]);
        }
    }
}

/// `String::push`: appends one char.
#[verifier::external_body]
pub(crate) fn push_char(s: &mut String, c: char)
    ensures
        final(s)@ == old(s)@.push(c),
{
    s.push(c);
}

/// The chars of `s`, in order.
pub fn chars_of(s: &str) -> (v: Vec<char>)
    ensures
        v@ == s@,
{
    let mut v: Vec<char> = Vec::new();
    for c in it: s.chars()
        invariant
            v@ == it.seq().take(it.index() as int),
            it.seq() == s@,
    {
        v.push(c);
    }
    v
}

/// `char::is_whitespace`.
pub fn is_whitespace_char(c: char) -> (r: bool)
    ensures
        r == is_whitespace(c),
{
    c == ' ' || ('\t' <= c && c <= '\r') || c == '\u{85}' || c == '\u{a0}' || c == '\u{1680}' || (
    '\u{2000}' <= c && c <= '\u{200a}') || c == '\u{2028}' || c == '\u{2029}' || c == '\u{202f}'
        || c == '\u{205f}' || c == '\u{3000}'
}

/// `char::to_ascii_lowercase`.
pub fn lower_char(c: char) -> (r: char)
    ensures
        r == ascii_lower(c),
{
    if 'A' <= c && c <= 'Z' {
        let b: u8 = c as u8;
        (b + 32) as char
    } else {
        c
    }
}

/// The chars of `cs` in ASCII lower case.
pub fn lower_vec(cs: &Vec<char>) -> (r: Vec<char>)
    ensures
        r@ == lower_seq(cs@),
{
    let mut r: Vec<char> = Vec::new();
    let mut i: usize = 0;
    while i < cs.len()
        invariant
            i <= cs.len(),
            r@ == lower_seq(cs@.take(i as int)),
        decreases cs.len() - i,
    {
        r.push(lower_char(cs[i]));
        i += 1;
        assert(lower_seq(cs@.take(i as int)) =~= lower_seq(cs@.take(i - 1)).push(ascii_lower(cs@[i - 1])));
    }
    assert(cs@.take(cs.len() as int) =~= cs@);
    r
}

/// Bounds of `trim(cs[lo..hi])` inside `cs`.
pub fn trim_range(cs: &Vec<char>, lo: usize, hi: usize) -> (r: (usize, usize))
    requires
        lo <= hi <= cs.len(),
    ensures
        lo <= r.0 <= r.1 <= hi,
        cs@.subrange(r.0 as int, r.1 as int) == trim(cs@.subrange(lo as int, hi as int)),
{
    let mut a = lo;
    while a < hi && is_whitespace_char(cs[a])
        invariant
            lo <= a <= hi <= cs.len(),
            trim_start(cs@.subrange(lo as int, hi as int)) == trim_start(cs@.subrange(a as int, hi as int)),
        decreases hi - a,
    {
        assert(cs@.subrange(a as int, hi as int).drop_first() =~= cs@.subrange(a + 1, hi as int));
        a += 1;
    }
    let mut b = hi;
    while b > a && is_whitespace_char(cs[b - 1])
        invariant
            lo <= a <= b <= hi <= cs.len(),
            trim_end(cs@.subrange(a as int, hi as int)) == trim_end(cs@.subrange(a as int, b as int)),
        decreases b - a,
    {
        assert(cs@.subrange(a as int, b as int).drop_last() =~= cs@.subrange(a as int, b - 1));
        b -= 1;
    }
    (a, b)
}

/// Position of the first `c` in `cs[lo..hi]`, counted from the start of `cs`.
pub fn find_char(cs: &Vec<char>, c: char, lo: usize, hi: usize) -> (r: Option<usize>)
    requires
        lo <= hi <= cs.len(),
    ensures
        match r {
            Some(i) => lo <= i < hi && first_index(cs@.subrange(lo as int, hi as int), c) == Some(
                i - lo,
            ),
            None => first_index(cs@.subrange(lo as int, hi as int), c) is None,
        },
{
    let ghost sub = cs@.subrange(lo as int, hi as int);
    let mut i = lo;
    while i < hi
        invariant
            lo <= i <= hi <= cs.len(),
            sub == cs@.subrange(lo as int, hi as int),
            forall|j: int| lo <= j < i ==> cs@[j] != c,
        decreases hi - i,
    {
        if cs[i] == c {
            proof {
                lemma_first_index_is(sub, c, i - lo);
            }
            return Some(i);
        }
        i += 1;
    }
    proof {
        lemma_first_index(sub, c);
    }
    None
}

/// Position of the last `c` in `cs`.
pub fn rfind_char(cs: &Vec<char>, c: char) -> (r: Option<usize>)
    ensures
        match r {
            Some(i) => last_index(cs@, c) == Some(i as int),
            None => last_index(cs@, c) is None,
        },
{
    let mut i = cs.len();
    while i > 0
        invariant
            i <= cs.len(),
            forall|j: int| i <= j < cs.len() ==> cs@[j] != c,
        decreases i,
    {
        if cs[i - 1] == c {
            proof {
                lemma_last_index(cs@, c);
                if let Some(k) = last_index(cs@, c) {
                    assert(k == i - 1);
                }
            }
            return Some(i - 1);
        }
        i -= 1;
    }
    proof {
        lemma_last_index(cs@, c);
    }
    None
}

/// Whether `cs[lo..hi]` equals `other` up to ASCII case.
pub fn eq_ignore_case_range(cs: &Vec<char>, lo: usize, hi: usize, other: &Vec<char>) -> (r: bool)
    requires
        lo <= hi <= cs.len(),
    ensures
        r == eq_ignore_ascii_case(cs@.subrange(lo as int, hi as int), other@),
{
    let ghost a = cs@.subrange(lo as int, hi as int);
    if hi - lo != other.len() {
        assert(lower_seq(a).len() != lower_seq(other@).len());
        return false;
    }
    let mut k: usize = 0;
    while k < other.len()
        invariant
            lo <= hi <= cs.len(),
            hi - lo == other.len(),
            a == cs@.subrange(lo as int, hi as int),
            k <= other.len(),
            forall|j: int| 0 <= j < k ==> ascii_lower(a[j]) == ascii_lower(other@[j]),
        decreases other.len() - k,
    {
        if lower_char(cs[lo + k]) != lower_char(other[k]) {
            assert(lower_seq(a)[k as int] != lower_seq(other@)[k as int]);
            return false;
        }
        k += 1;
    }
    assert(lower_seq(a) =~= lower_seq(other@));
    true
}

/// Whether `v` holds exactly the chars of `w`.
pub fn same_chars(v: &Vec<char>, w: &[char]) -> (r: bool)
    ensures
        r == (v@ == w@),
{
    if v.len() != w.len() {
        return false;
    }
    let mut i: usize = 0;
    while i < w.len()
        invariant
            v.len() == w.len(),
            i <= w.len(),
            forall|j: int| 0 <= j < i ==> v@[j] == w@[j],
        decreases w.len() - i,
    {
        if v[i] != w[i] {
            return false;
        }
        i += 1;
    }
    assert(v@ =~= w@);
    true
}

/// A copy of `cs[lo..hi]`.
pub fn copy_range(cs: &Vec<char>, lo: usize, hi: usize) -> (r: Vec<char>)
    requires
        lo <= hi <= cs.len(),
    ensures
        r@ == cs@.subrange(lo as int, hi as int),
{
    let mut r: Vec<char> = Vec::new();
    let mut i = lo;
    while i < hi
        invariant
            lo <= i <= hi <= cs.len(),
            r@ == cs@.subrange(lo as int, i as int),
        decreases hi - i,
    {
        r.push(cs[i]);
        i += 1;
        assert(r@ =~= cs@.subrange(lo as int, i as int));
    }
    r
}

/// Whether `pat` occurs in `hay` at `i`.
pub fn matches_at(hay: &Vec<char>, pat: &Vec<char>, i: usize) -> (r: bool)
    requires
        i + pat.len() <= hay.len(),
    ensures
        r == match_at(hay@, pat@, i as int),
{
    let mut k: usize = 0;
    while k < pat.len()
        invariant
            i + pat.len() <= hay.len(),
            k <= pat.len(),
            forall|j: int| 0 <= j < k ==> hay@[i + j] == pat@[j],
        decreases pat.len() - k,
    {
        if hay[i + k] != pat[k] {
            assert(hay@.subrange(i as int, i + pat.len())[k as int] != pat@[k as int]);
            return false;
        }
        k += 1;
    }
    assert(hay@.subrange(i as int, i + pat.len()) =~= pat@);
    true
}

/// Position of the first occurrence of `pat` in `hay`.
pub fn find_seq(hay: &Vec<char>, pat: &Vec<char>) -> (r: Option<usize>)
    ensures
        match r {
            Some(i) => first_match(hay@, pat@) == Some(i as int),
            None => first_match(hay@, pat@) is None,
        },
{
    if pat.len() > hay.len() {
        proof {
            lemma_first_match(hay@, pat@);
        }
        return None;
    }
    let last = hay.len() - pat.len();
    let mut i: usize = 0;
    while i < last
        invariant
            i <= last,
            last + pat.len() == hay.len(),
            forall|j: int| 0 <= j < i ==> !match_at(hay@, pat@, j),
        decreases last - i,
    {
        if matches_at(hay, pat, i) {
            proof {
                lemma_first_match_is(hay@, pat@, i as int);
            }
            return Some(i);
        }
        i += 1;
    }
    if matches_at(hay, pat, last) {
        proof {
            lemma_first_match_is(hay@, pat@, last as int);
        }
        return Some(last);
    }
    proof {
        lemma_first_match(hay@, pat@);
        if let Some(k) = first_match(hay@, pat@) {
            assert(match_at(hay@, pat@, k));
        }
    }
    None
}

} // verus!
