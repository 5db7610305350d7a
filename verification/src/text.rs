//! Character-level text predicates shared by the validators of this crate.
//!
//! Strings are reasoned about through their `Seq<char>` view. Whitespace
//! follows the Unicode `White_Space` property, which is what `char::is_whitespace`
//! and `str::trim` use.
use vstd::prelude::*;
use vstd::string::*;
use vstd::utf8::*;

verus! {

/// Unicode `White_Space` code points.
pub open spec fn is_ws(c: char) -> bool {
    let v = c as u32;
    (0x9 <= v && v <= 0xd) || v == 0x20 || v == 0x85 || v == 0xa0 || v == 0x1680 || (0x2000 <= v
        && v <= 0x200a) || v == 0x2028 || v == 0x2029 || v == 0x202f || v == 0x205f || v == 0x3000
}

/// `s.trim() == s`: no leading and no trailing whitespace.
pub open spec fn is_trimmed(s: Seq<char>) -> bool {
    s.len() == 0 || (!is_ws(s[0]) && !is_ws(s[s.len() - 1]))
}

/// `s.trim().is_empty()`: every character is whitespace.
pub open spec fn all_ws(s: Seq<char>) -> bool {
    forall|i: int| 0 <= i < s.len() ==> is_ws(#[trigger] s[i])
}

/// Some character is whitespace.
pub open spec fn has_ws(s: Seq<char>) -> bool {
    exists|i: int| 0 <= i < s.len() && is_ws(#[trigger] s[i])
}

/// Non-empty after trimming and equal to its own trim.
pub open spec fn is_clean_label(s: Seq<char>) -> bool {
    !all_ws(s) && is_trimmed(s)
}

/// Length of the UTF-8 encoding, which is what `str::len` reports.
pub open spec fn utf8_len(s: Seq<char>) -> int {
    (encode_utf8(s).len() as usize) as int
}

pub open spec fn starts_with(s: Seq<char>, p: Seq<char>) -> bool {
    p.len() <= s.len() && s.subrange(0, p.len() as int) == p
}

pub open spec fn occurs_at(s: Seq<char>, p: Seq<char>, i: int) -> bool {
    0 <= i && i + p.len() <= s.len() && s.subrange(i, i + p.len()) == p
}

/// `str::contains` with a string pattern.
pub open spec fn contains_str(s: Seq<char>, p: Seq<char>) -> bool {
    exists|i: int| #[trigger] occurs_at(s, p, i)
}

pub open spec fn bytes_occur_at(s: Seq<u8>, p: Seq<u8>, i: int) -> bool {
    0 <= i && i + p.len() <= s.len() && s.subrange(i, i + p.len()) == p
}

/// Some window of `s` of length `p.len()` equals `p`.
pub open spec fn bytes_contain(s: Seq<u8>, p: Seq<u8>) -> bool {
    exists|i: int| #[trigger] bytes_occur_at(s, p, i)
}

pub open spec fn is_hex_digit(c: char) -> bool {
    ('0' <= c && c <= '9') || ('a' <= c && c <= 'f') || ('A' <= c && c <= 'F')
}

pub open spec fn all_hex(s: Seq<char>) -> bool {
    forall|i: int| 0 <= i < s.len() ==> is_hex_digit(#[trigger] s[i])
}

/// Lower-case hexadecimal digit for a value below 16.
pub open spec fn hex_digit(v: u8) -> char {
    if v < 10 {
        ((v + 48) as u8) as char
    } else {
        ((v + 87) as u8) as char
    }
}

/// Lower-case hexadecimal rendering, two characters per byte.
pub open spec fn lower_hex_spec(b: Seq<u8>) -> Seq<char>
    decreases b.len(),
{
    if b.len() == 0 {
        Seq::empty()
    } else {
        lower_hex_spec(b.drop_last()) + seq![hex_digit(b.last() / 16), hex_digit(b.last() % 16)]
    }
}

pub proof fn lemma_lower_hex_len(b: Seq<u8>)
    ensures
        lower_hex_spec(b).len() == 2 * b.len(),
    decreases b.len(),
{
    if b.len() > 0 {
        lemma_lower_hex_len(b.drop_last());
    }
}

/// Every character of a lower-case hex rendering is ASCII.
pub proof fn lemma_lower_hex_ascii(b: Seq<u8>)
    ensures
        forall|i: int| 0 <= i < lower_hex_spec(b).len() ==> (#[trigger] lower_hex_spec(b)[i]) as u32 <= 0x7f,
    decreases b.len(),
{
    if b.len() > 0 {
        lemma_lower_hex_ascii(b.drop_last());
        let p = lower_hex_spec(b.drop_last());
        let t = seq![hex_digit(b.last() / 16), hex_digit(b.last() % 16)];
        assert(lower_hex_spec(b) == p + t);
        assert forall|i: int| 0 <= i < lower_hex_spec(b).len() implies (#[trigger] lower_hex_spec(b)[i]) as u32 <= 0x7f by {
            if i < p.len() {
                assert(lower_hex_spec(b)[i] == p[i]);
            } else {
                assert(lower_hex_spec(b)[i] == t[i - p.len()]);
            }
        }
    }
}

/// A UTF-8 encoding takes at most four bytes per character.
pub proof fn lemma_utf8_len_bound(s: Seq<char>)
    ensures
        encode_utf8(s).len() <= 4 * s.len(),
    decreases s.len(),
{
    if s.len() > 0 {
        lemma_utf8_len_bound(s.drop_first());
    }
}

pub fn char_is_ws(c: char) -> (b: bool)
    ensures
        b == is_ws(c),
{
    let v = c as u32;
    (0x9 <= v && v <= 0xd) || v == 0x20 || v == 0x85 || v == 0xa0 || v == 0x1680 || (0x2000 <= v
        && v <= 0x200a) || v == 0x2028 || v == 0x2029 || v == 0x202f || v == 0x205f || v == 0x3000
}

pub fn char_is_hex_digit(c: char) -> (b: bool)
    ensures
        b == is_hex_digit(c),
{
    ('0' <= c && c <= '9') || ('a' <= c && c <= 'f') || ('A' <= c && c <= 'F')
}

/// Number of characters (not bytes).
pub fn char_count(s: &str) -> (n: usize)
    ensures
        n == s@.len(),
{
    s.unicode_len()
}

/// Byte length of the UTF-8 encoding.
pub fn byte_len(s: &str) -> (n: usize)
    ensures
        n == utf8_len(s@),
{
    s.len()
}

pub fn trimmed(s: &str) -> (b: bool)
    ensures
        b == is_trimmed(s@),
{
    let n = s.unicode_len();
    if n == 0 {
        return true;
    }
    !char_is_ws(s.get_char(0)) && !char_is_ws(s.get_char(n - 1))
}

pub fn only_ws(s: &str) -> (b: bool)
    ensures
        b == all_ws(s@),
{
    let n = s.unicode_len();
    let mut i: usize = 0;
    while i < n
        invariant
            n == s@.len(),
            i <= n,
            forall|j: int| 0 <= j < i ==> is_ws(#[trigger] s@[j]),
        decreases n - i,
    {
        if !char_is_ws(s.get_char(i)) {
            return false;
        }
        i = i + 1;
    }
    true
}

pub fn any_ws(s: &str) -> (b: bool)
    ensures
        b == has_ws(s@),
{
    let n = s.unicode_len();
    let mut i: usize = 0;
    while i < n
        invariant
            n == s@.len(),
            i <= n,
            forall|j: int| 0 <= j < i ==> !is_ws(#[trigger] s@[j]),
        decreases n - i,
    {
        if char_is_ws(s.get_char(i)) {
            return true;
        }
        i = i + 1;
    }
    false
}

/// `!s.trim().is_empty() && s.trim() == s`.
pub fn clean_label(s: &str) -> (b: bool)
    ensures
        b == is_clean_label(s@),
{
    !only_ws(s) && trimmed(s)
}

pub fn all_hex_digits(s: &str) -> (b: bool)
    ensures
        b == all_hex(s@),
{
    let n = s.unicode_len();
    let mut i: usize = 0;
    while i < n
        invariant
            n == s@.len(),
            i <= n,
            forall|j: int| 0 <= j < i ==> is_hex_digit(#[trigger] s@[j]),
        decreases n - i,
    {
        if !char_is_hex_digit(s.get_char(i)) {
            return false;
        }
        i = i + 1;
    }
    true
}

/// True when `p` occurs in `s` at character offset `at`.
pub fn matches_at(s: &str, p: &str, at: usize) -> (b: bool)
    ensures
        b == occurs_at(s@, p@, at as int),
{
    let n = s.unicode_len();
    let m = p.unicode_len();
    if at > n || m > n - at {
        return false;
    }
    let mut i: usize = 0;
    while i < m
        invariant
            n == s@.len(),
            m == p@.len(),
            at + m <= n,
            i <= m,
            forall|j: int| 0 <= j < i ==> s@[at + j] == p@[j],
        decreases m - i,
    {
        if s.get_char(at + i) != p.get_char(i) {
            assert(s@.subrange(at as int, at + m)[i as int] != p@[i as int]);
            return false;
        }
        i = i + 1;
    }
    assert(s@.subrange(at as int, at + m) =~= p@);
    true
}

pub fn str_starts_with(s: &str, p: &str) -> (b: bool)
    ensures
        b == starts_with(s@, p@),
{
    matches_at(s, p, 0)
}

pub fn str_contains(s: &str, p: &str) -> (b: bool)
    ensures
        b == contains_str(s@, p@),
{
    let n = s.unicode_len();
    let m = p.unicode_len();
    if m > n {
        assert forall|i: int| !#[trigger] occurs_at(s@, p@, i) by {}
        return false;
    }
    let last = n - m;
    let mut i: usize = 0;
    while i < last
        invariant
            n == s@.len(),
            m == p@.len(),
            m <= n,
            last == n - m,
            i <= last,
            forall|j: int| 0 <= j < i ==> !#[trigger] occurs_at(s@, p@, j),
        decreases last - i,
    {
        if matches_at(s, p, i) {
            return true;
        }
        i = i + 1;
    }
    if matches_at(s, p, last) {
        return true;
    }
    assert forall|j: int| !#[trigger] occurs_at(s@, p@, j) by {
        if 0 <= j && j + m <= n {
            assert(j <= last);
        }
    }
    false
}

/// Character-wise equality of two string slices.
pub fn str_equal(a: &str, b: &str) -> (r: bool)
    ensures
        r == (a@ == b@),
{
    let n = a.unicode_len();
    let m = b.unicode_len();
    if n != m {
        return false;
    }
    let mut i: usize = 0;
    while i < n
        invariant
            n == a@.len(),
            m == b@.len(),
            n == m,
            i <= n,
            forall|j: int| 0 <= j < i ==> a@[j] == b@[j],
        decreases n - i,
    {
        if a.get_char(i) != b.get_char(i) {
            return false;
        }
        i = i + 1;
    }
    assert(a@ =~= b@);
    true
}

pub fn bytes_match_at(s: &[u8], p: &[u8], at: usize) -> (b: bool)
    ensures
        b == bytes_occur_at(s@, p@, at as int),
{
    let n = s.len();
    let m = p.len();
    if at > n || m > n - at {
        return false;
    }
    let mut i: usize = 0;
    while i < m
        invariant
            n == s@.len(),
            m == p@.len(),
            at + m <= n,
            i <= m,
            forall|j: int| 0 <= j < i ==> s@[at + j] == p@[j],
        decreases m - i,
    {
        if s[at + i] != p[i] {
            assert(s@.subrange(at as int, at + m)[i as int] != p@[i as int]);
            return false;
        }
        i = i + 1;
    }
    assert(s@.subrange(at as int, at + m) =~= p@);
    true
}

/// Does any window of `hay` equal `needle`.
pub fn bytes_contains(hay: &[u8], needle: &[u8]) -> (b: bool)
    ensures
        b == bytes_contain(hay@, needle@),
{
    let n = hay.len();
    let m = needle.len();
    if m > n {
        assert forall|i: int| !#[trigger] bytes_occur_at(hay@, needle@, i) by {}
        return false;
    }
    let last = n - m;
    let mut i: usize = 0;
    while i < last
        invariant
            n == hay@.len(),
            m == needle@.len(),
            m <= n,
            last == n - m,
            i <= last,
            forall|j: int| 0 <= j < i ==> !#[trigger] bytes_occur_at(hay@, needle@, j),
        decreases last - i,
    {
        if bytes_match_at(hay, needle, i) {
            return true;
        }
        i = i + 1;
    }
    if bytes_match_at(hay, needle, last) {
        return true;
    }
    assert forall|j: int| !#[trigger] bytes_occur_at(hay@, needle@, j) by {
        if 0 <= j && j + m <= n {
            assert(j <= last);
        }
    }
    false
}

/// String built from a literal.
pub fn text(s: &str) -> (r: String)
    ensures
        r@ == s@,
{
    String::from_str(s)
}

/// Concatenation of two pieces of text.
pub fn join2(a: &str, b: &str) -> (r: String)
    ensures
        r@ == a@ + b@,
{
    let mut r = String::from_str(a);
    r.append(b);
    r
}

/// Lower-case hexadecimal rendering of bytes.
pub fn lower_hex(bytes: &[u8]) -> (r: String)
    ensures
        r@ == lower_hex_spec(bytes@),
{
    let digits = "0123456789abcdef";
    proof {
        reveal_strlit("0123456789abcdef");
    }
    let mut out = String::new();
    let n = bytes.len();
    let mut i: usize = 0;
    while i < n
        invariant
            n == bytes@.len(),
            i <= n,
            out@ == lower_hex_spec(bytes@.subrange(0, i as int)),
            digits@ == "0123456789abcdef"@,
            digits@.len() == 16,
            is_ascii(digits),
            forall|k: int| 0 <= k < 16 ==> #[trigger] digits@[k] == hex_digit(k as u8),
        decreases n - i,
    {
        let b = bytes[i];
        let hi = (b / 16) as usize;
        let lo = (b % 16) as usize;
        let h = digits.substring_ascii(hi, hi + 1);
        let l = digits.substring_ascii(lo, lo + 1);
        out.append(h);
        out.append(l);
        proof {
            let prev = bytes@.subrange(0, i as int);
            let next = bytes@.subrange(0, i + 1);
            assert(next.drop_last() =~= prev);
            assert(next.last() == b);
            assert(h@ =~= seq![hex_digit(b / 16)]);
            assert(l@ =~= seq![hex_digit(b % 16)]);
            assert(out@ =~= lower_hex_spec(next));
        }
        i = i + 1;
    }
    assert(bytes@.subrange(0, n as int) =~= bytes@);
    out
}

/// `s` without its leading whitespace.
pub open spec fn trim_start_spec(s: Seq<char>) -> Seq<char>
    decreases s.len(),
{
    if s.len() > 0 && is_ws(s[0]) {
        trim_start_spec(s.drop_first())
    } else {
        s
    }
}

/// `s` without its trailing whitespace.
pub open spec fn trim_end_spec(s: Seq<char>) -> Seq<char>
    decreases s.len(),
{
    if s.len() > 0 && is_ws(s.last()) {
        trim_end_spec(s.drop_last())
    } else {
        s
    }
}

/// `str::trim`: `s` without leading and trailing whitespace.
pub open spec fn trim_spec(s: Seq<char>) -> Seq<char> {
    trim_end_spec(trim_start_spec(s))
}

/// Trimming leaves nothing exactly when every character is whitespace.
pub proof fn lemma_trim_empty(s: Seq<char>)
    ensures
        (trim_spec(s).len() == 0) == all_ws(s),
    decreases s.len(),
{
    lemma_trim_start_empty(s);
    lemma_trim_end_empty(trim_start_spec(s));
}

proof fn lemma_trim_start_empty(s: Seq<char>)
    ensures
        (trim_start_spec(s).len() == 0) == all_ws(s),
        trim_start_spec(s).len() > 0 ==> !is_ws(trim_start_spec(s)[0]),
    decreases s.len(),
{
    if s.len() > 0 && is_ws(s[0]) {
        lemma_trim_start_empty(s.drop_first());
        if all_ws(s.drop_first()) {
            assert forall|i: int| 0 <= i < s.len() implies is_ws(#[trigger] s[i]) by {
                if i > 0 {
                    assert(s[i] == s.drop_first()[i - 1]);
                }
            }
        }
        if all_ws(s) {
            assert forall|i: int| 0 <= i < s.drop_first().len() implies is_ws(#[trigger] s.drop_first()[i]) by {
                assert(s.drop_first()[i] == s[i + 1]);
            }
        }
    } else if s.len() > 0 {
        assert(!is_ws(s[0]));
    }
}

proof fn lemma_trim_end_empty(s: Seq<char>)
    requires
        s.len() > 0 ==> !is_ws(s[0]),
    ensures
        (trim_end_spec(s).len() == 0) == (s.len() == 0),
    decreases s.len(),
{
    if s.len() > 0 && is_ws(s.last()) {
        if s.len() == 1 {
            assert(s.last() == s[0]);
        } else {
            assert(s.drop_last()[0] == s[0]);
            lemma_trim_end_empty(s.drop_last());
        }
    }
}

proof fn lemma_trim_end_ends(s: Seq<char>)
    requires
        s.len() > 0 ==> !is_ws(s[0]),
    ensures
        trim_end_spec(s).len() > 0 ==> !is_ws(trim_end_spec(s)[0]) && !is_ws(trim_end_spec(s).last()),
    decreases s.len(),
{
    if s.len() > 0 && is_ws(s.last()) {
        if s.len() > 1 {
            assert(s.drop_last()[0] == s[0]);
            lemma_trim_end_ends(s.drop_last());
        }
    }
}

/// Trimming twice is trimming once.
pub proof fn lemma_trim_idempotent(s: Seq<char>)
    ensures
        trim_spec(trim_spec(s)) == trim_spec(s),
{
    lemma_trim_start_empty(s);
    lemma_trim_end_ends(trim_start_spec(s));
    let t = trim_spec(s);
    assert(trim_start_spec(t) == t);
    assert(trim_end_spec(t) == t);
}

/// `str::trim`, as an owned string.
pub fn trim_text(s: &str) -> (r: String)
    ensures
        r@ == trim_spec(s@),
{
    let n = s.unicode_len();
    let mut a: usize = 0;
    assert(s@.skip(0) =~= s@);
    while a < n && char_is_ws(s.get_char(a))
        invariant
            n == s@.len(),
            a <= n,
            trim_start_spec(s@) == trim_start_spec(s@.skip(a as int)),
        decreases n - a,
    {
        assert(s@.skip(a as int).drop_first() =~= s@.skip(a + 1));
        a = a + 1;
    }
    let ghost t = s@.skip(a as int);
    assert(trim_start_spec(t) == t);
    let mut b: usize = n;
    assert(s@.subrange(a as int, n as int) =~= t);
    while b > a && char_is_ws(s.get_char(b - 1))
        invariant
            n == s@.len(),
            a <= b <= n,
            t == s@.skip(a as int),
            trim_end_spec(t) == trim_end_spec(s@.subrange(a as int, b as int)),
        decreases b,
    {
        assert(s@.subrange(a as int, b as int).drop_last() =~= s@.subrange(a as int, b - 1));
        b = b - 1;
    }
    let core = s.substring_char(a, b);
    assert(trim_end_spec(s@.subrange(a as int, b as int)) == s@.subrange(a as int, b as int));
    String::from_str(core)
}

/// Decimal rendering of a natural number, most significant digit first.
pub open spec fn decimal_spec(n: nat) -> Seq<char>
    decreases n,
{
    if n < 10 {
        seq![hex_digit(n as u8)]
    } else {
        decimal_spec(n / 10).push(hex_digit((n % 10) as u8))
    }
}

/// Decimal rendering of an integer, as `format!("{}")` writes it.
pub fn decimal(n: u64) -> (r: String)
    ensures
        r@ == decimal_spec(n as nat),
    decreases n,
{
    let digits = "0123456789";
    proof {
        reveal_strlit("0123456789");
    }
    assert(digits@.len() == 10);
    let d = (n % 10) as usize;
    assert(digits@[d as int] == hex_digit(d as u8));
    let last = digits.substring_ascii(d, d + 1);
    assert(last@ =~= seq![hex_digit((n % 10) as u8)]);
    if n < 10 {
        String::from_str(last)
    } else {
        let mut r = decimal(n / 10);
        r.append(last);
        r
    }
}

/// Distinct peer names of a list.
pub open spec fn peers_view(v: Seq<String>) -> Set<Seq<char>> {
    v.map_values(|p: String| p@).to_set()
}

pub open spec fn unique_strings(v: Seq<String>) -> bool {
    forall|i: int, j: int|
        0 <= i < v.len() && 0 <= j < v.len() && i != j ==> (#[trigger] v[i])@ != (#[trigger] v[j])@
}

/// A list of distinct strings has as many distinct names as entries.
pub proof fn lemma_unique_peers_len(v: Seq<String>)
    requires
        unique_strings(v),
    ensures
        peers_view(v).len() == v.len(),
{
    let m = v.map_values(|p: String| p@);
    assert(m.no_duplicates()) by {
        assert forall|i: int, j: int| 0 <= i < m.len() && 0 <= j < m.len() && i != j implies m[i] != m[j] by {
            assert(m[i] == v[i]@);
            assert(m[j] == v[j]@);
        }
    }
    m.unique_seq_to_set();
}

/// Is `s` one of the strings of `v`, compared by characters.
pub fn contains_string(v: &Vec<String>, s: &str) -> (b: bool)
    ensures
        b == peers_view(v@).contains(s@),
{
    let n = v.len();
    let mut i: usize = 0;
    while i < n
        invariant
            n == v@.len(),
            i <= n,
            forall|j: int| 0 <= j < i ==> (#[trigger] v@[j])@ != s@,
        decreases n - i,
    {
        if str_equal(v[i].as_str(), s) {
            assert(v@.map_values(|p: String| p@)[i as int] == s@);
            return true;
        }
        i = i + 1;
    }
    assert(!peers_view(v@).contains(s@)) by {
        let m = v@.map_values(|p: String| p@);
        if m.contains(s@) {
            let j = choose|j: int| 0 <= j < m.len() && m[j] == s@;
            assert(v@[j]@ == s@);
        }
    }
    false
}

} // verus!
