//! Character-level helpers shared by the naming, search and formatting logic.

use vstd::prelude::*;

verus! {

broadcast use vstd::string::group_string_axioms;

/// Whether a character has the Unicode `White_Space` property.
pub open spec fn spec_is_whitespace(c: char) -> bool {
    let v = c as u32;
    ||| (0x09 <= v && v <= 0x0d)
    ||| v == 0x20
    ||| v == 0x85
    ||| v == 0xa0
    ||| v == 0x1680
    ||| (0x2000 <= v && v <= 0x200a)
    ||| v == 0x2028
    ||| v == 0x2029
    ||| v == 0x202f
    ||| v == 0x205f
    ||| v == 0x3000
}

/// Returns whether `c` has the Unicode `White_Space` property.
pub fn is_whitespace(c: char) -> (b: bool)
    ensures
        b == spec_is_whitespace(c),
{
    let v = c as u32;
    (0x09 <= v && v <= 0x0d) || v == 0x20 || v == 0x85 || v == 0xa0 || v == 0x1680 || (0x2000 <= v
        && v <= 0x200a) || v == 0x2028 || v == 0x2029 || v == 0x202f || v == 0x205f || v == 0x3000
}

/// Whether `c` is an ASCII letter or digit.
pub open spec fn spec_is_ascii_alphanumeric(c: char) -> bool {
    ('0' <= c && c <= '9') || ('a' <= c && c <= 'z') || ('A' <= c && c <= 'Z')
}

/// Returns whether `c` is an ASCII letter or digit.
pub fn is_ascii_alphanumeric(c: char) -> (b: bool)
    ensures
        b == spec_is_ascii_alphanumeric(c),
{
    ('0' <= c && c <= '9') || ('a' <= c && c <= 'z') || ('A' <= c && c <= 'Z')
}

/// The ASCII lowercase form of `c`; other characters are unchanged.
pub open spec fn spec_ascii_lower(c: char) -> char {
    if 'A' <= c && c <= 'Z' {
        ((c as u32) + 32) as char
    } else {
        c
    }
}

/// Returns the ASCII lowercase form of `c`.
pub fn ascii_lower(c: char) -> (r: char)
    ensures
        r == spec_ascii_lower(c),
{
    if 'A' <= c && c <= 'Z' {
        let b = (c as u8) + 32;
        b as char
    } else {
        c
    }
}

/// `s` with every character mapped to its ASCII lowercase form.
pub open spec fn spec_ascii_lowercase(s: Seq<char>) -> Seq<char> {
    s.map_values(|c: char| spec_ascii_lower(c))
}

/// `s` without its leading whitespace.
pub open spec fn spec_trim_start(s: Seq<char>) -> Seq<char>
    decreases s.len(),
{
    if s.len() > 0 && spec_is_whitespace(s[0]) {
        spec_trim_start(s.drop_first())
    } else {
        s
    }
}

/// `s` without its trailing whitespace.
pub open spec fn spec_trim_end(s: Seq<char>) -> Seq<char>
    decreases s.len(),
{
    if s.len() > 0 && spec_is_whitespace(s.last()) {
        spec_trim_end(s.drop_last())
    } else {
        s
    }
}

/// `s` without leading and trailing whitespace.
pub open spec fn spec_trim(s: Seq<char>) -> Seq<char> {
    spec_trim_end(spec_trim_start(s))
}

/// Whether `needle` occurs as a contiguous run of characters in `hay`.
pub open spec fn spec_contains(hay: Seq<char>, needle: Seq<char>) -> bool {
    exists|i: int| 0 <= i && i + needle.len() <= hay.len() && #[trigger] hay.subrange(i, i + needle.len()) == needle
}

/// Name for the result of `str::to_lowercase`, the full Unicode lowercase mapping of a string.
pub uninterp spec fn unicode_lowercase(s: Seq<char>) -> Seq<char>;

/// Collects the characters of a string slice.
pub fn chars_of(s: &str) -> (v: Vec<char>)
    ensures
        v@ == s@,
{
    let mut v: Vec<char> = Vec::new();
    for c in it: s.chars()
        invariant
            v@ == it.seq().take(it.index()),
            it.seq() == s@,
    {
        v.push(c);
    }
    v
}

/// Builds a string from characters (a call of `String::from_iter`).
#[verifier::external_body]
pub(crate) fn string_from_chars(v: &[char]) -> (s: String)
    ensures
        s@ == v@,
{
    v.iter().collect()
}

/// Whether every character of `s` is ASCII.
pub open spec fn spec_all_ascii(s: Seq<char>) -> bool {
    forall|i: int| 0 <= i < s.len() ==> (#[trigger] s[i] as u32) < 128
}

/// The Unicode lowercase of `s`: its ASCII lowercase when every character is ASCII (in the Unicode
/// character database the lowercase of `A` to `Z` is `a` to `z`, and every other ASCII character
/// is its own lowercase), otherwise the mapping named by [`unicode_lowercase`].
pub open spec fn spec_lowercase(s: Seq<char>) -> Seq<char> {
    if spec_all_ascii(s) {
        spec_ascii_lowercase(s)
    } else {
        unicode_lowercase(s)
    }
}

/// The Unicode lowercase mapping of `s` (a call of `str::to_lowercase`): [`spec_lowercase`], whose
/// mapping beyond ASCII is named by [`unicode_lowercase`] and not spelled out here.
#[verifier::external_body]
pub(crate) fn to_lowercase(s: &str) -> (r: String)
    ensures
        r@ == spec_lowercase(s@),
        !spec_all_ascii(s@) ==> r@ == unicode_lowercase(s@),
{
    s.to_lowercase()
}

proof fn lemma_trim_start_skip(s: Seq<char>, i: int)
    requires
        0 <= i <= s.len(),
        forall|k: int| 0 <= k < i ==> spec_is_whitespace(#[trigger] s[k]),
    ensures
        spec_trim_start(s) == spec_trim_start(s.subrange(i, s.len() as int)),
    decreases i,
{
    if i > 0 {
        assert(s.drop_first() =~= s.subrange(1, s.len() as int));
        let t = s.drop_first();
        assert forall|k: int| 0 <= k < i - 1 implies spec_is_whitespace(#[trigger] t[k]) by {
            assert(t[k] == s[k + 1]);
        }
        lemma_trim_start_skip(t, i - 1);
        assert(t.subrange(i - 1, t.len() as int) =~= s.subrange(i, s.len() as int));
    } else {
        assert(s.subrange(0, s.len() as int) =~= s);
    }
}

proof fn lemma_trim_end_skip(s: Seq<char>, j: int)
    requires
        0 <= j <= s.len(),
        forall|k: int| j <= k < s.len() ==> spec_is_whitespace(#[trigger] s[k]),
    ensures
        spec_trim_end(s) == spec_trim_end(s.subrange(0, j)),
    decreases s.len() - j,
{
    if j < s.len() {
        let t = s.drop_last();
        assert forall|k: int| j <= k < t.len() implies spec_is_whitespace(#[trigger] t[k]) by {
            assert(t[k] == s[k]);
        }
        assert(spec_is_whitespace(s[s.len() - 1]));
        lemma_trim_end_skip(t, j);
        assert(t.subrange(0, j) =~= s.subrange(0, j));
    } else {
        assert(s.subrange(0, j) =~= s);
    }
}

/// The characters of `s` without leading and trailing Unicode whitespace (as `str::trim`).
pub fn trim_chars(s: &[char]) -> (r: Vec<char>)
    ensures
        r@ == spec_trim(s@),
{
    let n = s.len();
    let mut i: usize = 0;
    while i < n && is_whitespace(s[i])
        invariant
            0 <= i <= n,
            n == s@.len(),
            forall|k: int| 0 <= k < i ==> spec_is_whitespace(#[trigger] s@[k]),
        decreases n - i,
    {
        i += 1;
    }
    proof {
        lemma_trim_start_skip(s@, i as int);
    }
    let ghost rest = s@.subrange(i as int, n as int);
    assert(i == n || !spec_is_whitespace(rest[0]));
    assert(spec_trim_start(rest) == rest);
    let mut j: usize = n;
    while j > i && is_whitespace(s[j - 1])
        invariant
            i <= j <= n,
            n == s@.len(),
            forall|k: int| j <= k < n ==> spec_is_whitespace(#[trigger] s@[k]),
        decreases j,
    {
        j -= 1;
    }
    proof {
        let rest_j = j - i;
        assert forall|k: int| rest_j <= k < rest.len() implies spec_is_whitespace(#[trigger] rest[k]) by {
            assert(rest[k] == s@[k + i]);
        }
        lemma_trim_end_skip(rest, rest_j as int);
        let mid = rest.subrange(0, rest_j as int);
        assert(mid =~= s@.subrange(i as int, j as int));
        if mid.len() > 0 {
            assert(mid.last() == s@[j - 1]);
        }
    }
    let mut r: Vec<char> = Vec::new();
    let mut k: usize = i;
    while k < j
        invariant
            i <= k <= j,
            j <= n,
            n == s@.len(),
            r@ == s@.subrange(i as int, k as int),
        decreases j - k,
    {
        r.push(s[k]);
        k += 1;
        assert(r@ =~= s@.subrange(i as int, k as int));
    }
    r
}

/// The characters of `s` with ASCII letters lowercased (as `str::to_ascii_lowercase`).
pub fn ascii_lowercase_chars(s: &[char]) -> (r: Vec<char>)
    ensures
        r@ == spec_ascii_lowercase(s@),
{
    let mut r: Vec<char> = Vec::new();
    let mut k: usize = 0;
    while k < s.len()
        invariant
            k <= s@.len(),
            r@ == spec_ascii_lowercase(s@.subrange(0, k as int)),
        decreases s.len() - k,
    {
        r.push(ascii_lower(s[k]));
        k += 1;
        assert(r@ =~= spec_ascii_lowercase(s@.subrange(0, k as int)));
    }
    assert(s@.subrange(0, k as int) =~= s@);
    r
}

/// Returns whether `needle` occurs in `hay` (as `str::contains` with a string pattern).
pub fn contains_chars(hay: &[char], needle: &[char]) -> (b: bool)
    ensures
        b == spec_contains(hay@, needle@),
{
    let n = hay.len();
    let m = needle.len();
    if m > n {
        assert forall|i: int| 0 <= i && i + m <= n implies #[trigger] hay@.subrange(i, i + m) != needle@ by {}
        return false;
    }
    let mut i: usize = 0;
    while i <= n - m
        invariant
            n == hay@.len(),
            m == needle@.len(),
            m <= n,
            i <= n - m + 1,
            forall|p: int| 0 <= p < i ==> #[trigger] hay@.subrange(p, p + m) != needle@,
        decreases n - i,
    {
        let mut k: usize = 0;
        let mut same = true;
        while k < m
            invariant
                n == hay@.len(),
                m == needle@.len(),
                i + m <= n,
                k <= m,
                same == (forall|q: int| 0 <= q < k ==> hay@[i + q] == needle@[q]),
            decreases m - k,
        {
            if hay[i + k] != needle[k] {
                same = false;
            }
            k += 1;
        }
        if same {
            assert(hay@.subrange(i as int, i + m) =~= needle@);
            return true;
        }
        assert(hay@.subrange(i as int, i + m) != needle@) by {
            let q = choose|q: int| 0 <= q < m && hay@[i + q] != needle@[q];
            assert(hay@.subrange(i as int, i + m)[q] == hay@[i + q]);
        }
        i += 1;
    }
    assert forall|p: int| 0 <= p && p + m <= n implies #[trigger] hay@.subrange(p, p + m) != needle@ by {}
    false
}

/// The decimal digit character for `d`.
pub open spec fn spec_digit(d: int) -> char {
    (48 + d) as char
}

/// The decimal form of `n`, most significant digit first, without leading zeros.
pub open spec fn spec_decimal(n: nat) -> Seq<char>
    decreases n,
{
    if n < 10 {
        seq![spec_digit(n as int)]
    } else {
        spec_decimal(n / 10).push(spec_digit((n % 10) as int))
    }
}

/// The decimal form of `i`, with a leading `-` when negative.
pub open spec fn spec_signed_decimal(i: int) -> Seq<char> {
    if i < 0 {
        seq!['-'] + spec_decimal((-i) as nat)
    } else {
        spec_decimal(i as nat)
    }
}

/// Appends the decimal form of `n`.
pub fn push_decimal(out: &mut Vec<char>, n: u64)
    ensures
        final(out)@ == old(out)@ + spec_decimal(n as nat),
    decreases n,
{
    if n >= 10 {
        push_decimal(out, n / 10);
    }
    let d: u8 = (n % 10) as u8;
    let c = (d + 48) as char;
    out.push(c);
    proof {
        if n >= 10 {
            assert(out@ =~= old(out)@ + spec_decimal(n as nat));
        } else {
            assert(out@ =~= old(out)@ + spec_decimal(n as nat));
        }
    }
}

/// Appends the decimal form of `i`, with a leading `-` when negative.
pub fn push_signed_decimal(out: &mut Vec<char>, i: i64)
    ensures
        final(out)@ == old(out)@ + spec_signed_decimal(i as int),
{
    if i < 0 {
        out.push('-');
        let magnitude: u64 = (0 - (i as i128)) as u64;
        push_decimal(out, magnitude);
        assert(out@ =~= old(out)@ + spec_signed_decimal(i as int));
    } else {
        push_decimal(out, i as u64);
    }
}

/// Appends the characters of `s`.
pub fn push_str(out: &mut Vec<char>, s: &str)
    ensures
        final(out)@ == old(out)@ + s@,
{
    let chars = chars_of(s);
    let mut k: usize = 0;
    let ghost before = out@;
    while k < chars.len()
        invariant
            k <= chars@.len(),
            chars@ == s@,
            out@ == before + chars@.subrange(0, k as int),
        decreases chars.len() - k,
    {
        out.push(chars[k]);
        k += 1;
        assert(out@ =~= before + chars@.subrange(0, k as int));
    }
    assert(chars@.subrange(0, k as int) =~= chars@);
}

/// Whether `s` ends with `suffix`.
pub open spec fn spec_ends_with(s: Seq<char>, suffix: Seq<char>) -> bool {
    suffix.len() <= s.len() && s.subrange(s.len() - suffix.len(), s.len() as int) == suffix
}

/// Returns whether the characters of `s` end with those of `suffix` (as `str::ends_with`).
pub fn ends_with(s: &str, suffix: &str) -> (b: bool)
    ensures
        b == spec_ends_with(s@, suffix@),
{
    let a = chars_of(s);
    let t = chars_of(suffix);
    if t.len() > a.len() {
        return false;
    }
    let n = a.len();
    let offset = n - t.len();
    let mut k: usize = 0;
    while k < t.len()
        invariant
            k <= t@.len(),
            a@ == s@,
            t@ == suffix@,
            offset + t@.len() == a@.len(),
            n == a@.len(),
            forall|j: int| 0 <= j < k ==> a@[offset + j] == t@[j],
        decreases t.len() - k,
    {
        if a[offset + k] != t[k] {
            assert(a@.subrange(offset as int, a@.len() as int)[k as int] != t@[k as int]);
            return false;
        }
        k += 1;
    }
    assert(a@.subrange(offset as int, a@.len() as int) =~= t@);
    true
}

/// Returns whether `a` and `b` hold the same characters (as `==` on strings).
pub fn str_equals(a: &str, b: &str) -> (r: bool)
    ensures
        r == (a@ == b@),
{
    let x = chars_of(a);
    let y = chars_of(b);
    if x.len() != y.len() {
        return false;
    }
    let mut k: usize = 0;
    while k < x.len()
        invariant
            k <= x@.len(),
            x@ == a@,
            y@ == b@,
            x@.len() == y@.len(),
            forall|j: int| 0 <= j < k ==> x@[j] == y@[j],
        decreases x.len() - k,
    {
        if x[k] != y[k] {
            assert(x@[k as int] != y@[k as int]);
            return false;
        }
        k += 1;
    }
    assert(x@ =~= y@);
    true
}

/// Whether `a` comes strictly before `b` in lexicographic order of characters, which is the
/// order of `String` (UTF-8 byte order agrees with code point order).
pub open spec fn spec_str_less(a: Seq<char>, b: Seq<char>) -> bool
    decreases a.len(),
{
    if a.len() == 0 {
        b.len() > 0
    } else if b.len() == 0 {
        false
    } else if a[0] != b[0] {
        a[0] < b[0]
    } else {
        spec_str_less(a.drop_first(), b.drop_first())
    }
}

/// Lexicographic order is a strict total order.
pub proof fn lemma_str_less_total(a: Seq<char>, b: Seq<char>)
    ensures
        !(spec_str_less(a, b) && spec_str_less(b, a)),
        a != b ==> spec_str_less(a, b) || spec_str_less(b, a),
        !spec_str_less(a, a),
    decreases a.len(),
{
    if a.len() > 0 && b.len() > 0 && a[0] == b[0] {
        lemma_str_less_total(a.drop_first(), b.drop_first());
        if a != b {
            assert(a.drop_first() != b.drop_first()) by {
                if a.drop_first() == b.drop_first() {
                    assert(a =~= seq![a[0]] + a.drop_first());
                    assert(b =~= seq![b[0]] + b.drop_first());
                }
            }
        }
    }
    if a.len() > 0 {
        lemma_str_less_total(a.drop_first(), a.drop_first());
    }
    if a.len() == 0 && b.len() == 0 {
        assert(a =~= b);
    }
}

/// Lexicographic order is transitive.
pub proof fn lemma_str_less_transitive(a: Seq<char>, b: Seq<char>, c: Seq<char>)
    requires
        spec_str_less(a, b),
        spec_str_less(b, c),
    ensures
        spec_str_less(a, c),
    decreases a.len(),
{
    if a.len() > 0 && b.len() > 0 && c.len() > 0 && a[0] == b[0] && b[0] == c[0] {
        lemma_str_less_transitive(a.drop_first(), b.drop_first(), c.drop_first());
    }
}

/// Returns whether `a` comes strictly before `b` in lexicographic order of characters.
pub fn str_less(a: &[char], b: &[char]) -> (r: bool)
    ensures
        r == spec_str_less(a@, b@),
{
    let mut k: usize = 0;
    assert(a@.subrange(0, a@.len() as int) =~= a@);
    assert(b@.subrange(0, b@.len() as int) =~= b@);
    while k < a.len() && k < b.len() && a[k] == b[k]
        invariant
            k <= a@.len(),
            k <= b@.len(),
            spec_str_less(a@, b@) == spec_str_less(
                a@.subrange(k as int, a@.len() as int),
                b@.subrange(
                k as int,
                b@.len() as int,
            )),
        decreases a.len() - k,
    {
        let ghost sa = a@.subrange(k as int, a@.len() as int);
        let ghost sb = b@.subrange(k as int, b@.len() as int);
        assert(sa.drop_first() =~= a@.subrange(k + 1, a@.len() as int));
        assert(sb.drop_first() =~= b@.subrange(k + 1, b@.len() as int));
        k += 1;
    }
    if k == a.len() {
        k < b.len()
    } else if k == b.len() {
        false
    } else {
        a[k] < b[k]
    }
}

/// Whether `c` is an ASCII decimal digit.
pub open spec fn spec_is_digit(c: char) -> bool {
    '0' <= c && c <= '9'
}

/// The value of a run of decimal digits, most significant first.
pub open spec fn spec_digits_value(ds: Seq<char>) -> nat
    decreases ds.len(),
{
    if ds.len() == 0 {
        0
    } else {
        spec_digits_value(ds.drop_last()) * 10 + ((ds.last() as int - '0' as int) as nat)
    }
}

/// Whether `s` starts with a sign that an integer may have: `+`, or `-` when `signed`.
pub open spec fn spec_has_sign(s: Seq<char>, signed: bool) -> bool {
    s.len() > 0 && (s[0] == '+' || (s[0] == '-' && signed))
}

/// The characters of `s` after its sign, if it has one.
pub open spec fn spec_magnitude_digits(s: Seq<char>, signed: bool) -> Seq<char> {
    if spec_has_sign(s, signed) {
        s.drop_first()
    } else {
        s
    }
}

/// Whether every character of `ds` is an ASCII digit.
pub open spec fn spec_all_digits(ds: Seq<char>) -> bool {
    forall|i: int| 0 <= i < ds.len() ==> spec_is_digit(#[trigger] ds[i])
}

/// The integer written by `s` as `str::parse` reads it for integer types: an optional `+` or
/// `-` sign (a `-` only when `signed`) followed by at least one ASCII digit, and nothing else.
pub open spec fn spec_parse_integer(s: Seq<char>, signed: bool) -> Option<int> {
    let ds = spec_magnitude_digits(s, signed);
    if ds.len() > 0 && spec_all_digits(ds) {
        if spec_has_sign(s, signed) && s[0] == '-' {
            Some(-(spec_digits_value(ds) as int))
        } else {
            Some(spec_digits_value(ds) as int)
        }
    } else {
        None
    }
}

proof fn lemma_digits_value_grows(ds: Seq<char>, d: char)
    requires
        spec_is_digit(d),
    ensures
        spec_digits_value(ds.push(d)) >= spec_digits_value(ds),
        spec_digits_value(ds.push(d)) == spec_digits_value(ds) * 10 + (d as int - '0' as int),
{
    assert(ds.push(d).drop_last() =~= ds);
}

/// A bound above every value that an integer type of at most 64 bits holds.
pub const INTEGER_CAP: u128 = 36893488147419103232;

/// Reads `s` as an integer the way `str::parse` does for integer types: whether it has a `-`
/// sign, and its magnitude exactly when that is at most [`INTEGER_CAP`] (above the cap
/// otherwise). `None` when `s` is not such an integer.
pub fn parse_integer(s: &[char], signed: bool) -> (r: Option<(bool, u128)>)
    ensures
        r is None <==> spec_parse_integer(s@, signed) is None,
        r matches Some((negative, magnitude)) ==> {
            let v = spec_parse_integer(s@, signed)->Some_0;
            &&& magnitude <= INTEGER_CAP ==> v == (if negative {
                -magnitude
            } else {
                magnitude as int
            })
            &&& magnitude > INTEGER_CAP ==> (if negative {
                v < -INTEGER_CAP
            } else {
                v > INTEGER_CAP
            })
        },
{
    let n = s.len();
    let mut start: usize = 0;
    let mut negative = false;
    if n > 0 && (s[0] == '+' || (s[0] == '-' && signed)) {
        start = 1;
        negative = s[0] == '-';
    }
    let ghost ds = if start == 1 {
        s@.drop_first()
    } else {
        s@
    };
    if start == n {
        return None;
    }
    let mut acc: u128 = 0;
    let mut k: usize = start;
    while k < n
        invariant
            start <= k <= n,
            n == s@.len(),
            start == 0 || start == 1,
            (start == 1) == spec_has_sign(s@, signed),
            ds == spec_magnitude_digits(s@, signed),
            ds == s@.subrange(start as int, n as int),
            forall|i: int| start <= i < k ==> spec_is_digit(#[trigger] s@[i]),
            spec_digits_value(ds.subrange(0, k - start)) <= INTEGER_CAP ==> acc == spec_digits_value(
                ds.subrange(0, k - start),
            ),
            spec_digits_value(ds.subrange(0, k - start)) > INTEGER_CAP ==> acc > INTEGER_CAP,
            acc <= INTEGER_CAP * 10 + 9,
        decreases n - k,
    {
        let c = s[k];
        if !('0' <= c && c <= '9') {
            proof {
                assert(!spec_is_digit(ds[k - start]));
                assert(!spec_all_digits(ds));
            }
            return None;
        }
        let ghost before = ds.subrange(0, k - start);
        proof {
            assert(ds.subrange(0, k + 1 - start) =~= before.push(c));
            lemma_digits_value_grows(before, c);
        }
        if acc <= INTEGER_CAP {
            let digit: u128 = ((c as u32) - 48) as u128;
            assert(acc * 10 <= INTEGER_CAP * 10) by (nonlinear_arith)
                requires
                    acc <= INTEGER_CAP,
            ;
            acc = acc * 10 + digit;
        }
        k += 1;
    }
    proof {
        assert(ds.subrange(0, n - start) =~= ds);
        assert forall|i: int| 0 <= i < ds.len() implies spec_is_digit(#[trigger] ds[i]) by {
            assert(ds[i] == s@[i + start]);
        }
    }
    Some((negative, acc))
}

} // verus!
