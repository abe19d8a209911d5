//! Layout naming: display-name validation, filename normalization and slugs.

use vstd::prelude::*;
use vstd::string::StrSliceExecFns;
use vstd::string::StringExecFns;

use crate::text::{
    spec_is_whitespace, spec_trim_end, spec_trim_start, ascii_lower, chars_of, is_ascii_alphanumeric, spec_ascii_lower, spec_is_ascii_alphanumeric, spec_trim,
    string_from_chars, trim_chars,
};

verus! {

broadcast use vstd::string::group_string_axioms;

/// Schema version written by this version of the application.
pub const CURRENT_LAYOUT_SCHEMA: u32 = 1;

/// Why a display name was refused.
#[derive(Debug, Clone)]
pub enum LayoutNameError {
    /// The name is empty once surrounding whitespace is removed.
    Empty,
    /// The name holds a character other than ASCII letters, digits, spaces, underscores and dashes.
    InvalidCharacter,
    /// Another layout already carries this exact name.
    Duplicate(String),
}

impl LayoutNameError {
    /// The user-facing description of the error.
    pub open spec fn spec_message(&self) -> Seq<char> {
        match self {
            LayoutNameError::Empty => "Layout names cannot be empty."@,
            LayoutNameError::InvalidCharacter =>
                "Layout names may only contain ASCII letters, numbers, spaces, underscores, and dashes."@,
            LayoutNameError::Duplicate(name) => "A layout named '"@ + name@ + "' already exists."@,
        }
    }

    /// Returns the user-facing description of the error.
    pub fn message(&self) -> (m: String)
        ensures
            m@ == self.spec_message(),
    {
        match self {
            LayoutNameError::Empty => String::from_str("Layout names cannot be empty."),
            LayoutNameError::InvalidCharacter => String::from_str(
                "Layout names may only contain ASCII letters, numbers, spaces, underscores, and dashes.",
            ),
            LayoutNameError::Duplicate(name) => {
                let m = String::from_str("A layout named '");
                let m = m.concat(name.as_str());
                m.concat("' already exists.")
            },
        }
    }
}

/// Whether `c` may appear in a display name.
pub open spec fn spec_is_name_char(c: char) -> bool {
    spec_is_ascii_alphanumeric(c) || c == ' ' || c == '_' || c == '-'
}

/// The result of validating a display name: the trimmed name, or why it is refused.
pub open spec fn spec_validated_display_name(name: Seq<char>) -> Result<Seq<char>, LayoutNameError> {
    let t = spec_trim(name);
    if t.len() == 0 {
        Err(LayoutNameError::Empty)
    } else if !(forall|i: int| 0 <= i < t.len() ==> spec_is_name_char(#[trigger] t[i])) {
        Err(LayoutNameError::InvalidCharacter)
    } else {
        Ok(t)
    }
}

/// Trims and validates a user-facing layout name.
pub fn validated_display_name(name: &str) -> (r: Result<String, LayoutNameError>)
    ensures
        match (r, spec_validated_display_name(name@)) {
            (Ok(s), Ok(t)) => s@ == t,
            (Err(LayoutNameError::Empty), Err(LayoutNameError::Empty)) => true,
            (Err(LayoutNameError::InvalidCharacter), Err(LayoutNameError::InvalidCharacter)) => true,
            _ => false,
        },
{
    let chars = chars_of(name);
    let t = trim_chars(chars.as_slice());
    if t.len() == 0 {
        return Err(LayoutNameError::Empty);
    }
    let mut k: usize = 0;
    while k < t.len()
        invariant
            k <= t@.len(),
            t@ == spec_trim(name@),
            forall|i: int| 0 <= i < k ==> spec_is_name_char(#[trigger] t@[i]),
        decreases t.len() - k,
    {
        let c = t[k];
        if !(is_ascii_alphanumeric(c) || c == ' ' || c == '_' || c == '-') {
            assert(!spec_is_name_char(t@[k as int]));
            assert(!(forall|i: int| 0 <= i < t@.len() ==> spec_is_name_char(#[trigger] t@[i])));
            return Err(LayoutNameError::InvalidCharacter);
        }
        k += 1;
    }
    Ok(string_from_chars(t.as_slice()))
}

/// One step of filename normalization: the output so far, and whether a separator is pending.
pub open spec fn spec_normalize_step(acc: (Seq<char>, bool), c: char) -> (Seq<char>, bool) {
    if spec_is_ascii_alphanumeric(c) {
        let out = if acc.1 && acc.0.len() > 0 {
            acc.0.push('-')
        } else {
            acc.0
        };
        (out.push(spec_ascii_lower(c)), false)
    } else {
        (acc.0, true)
    }
}

/// Normalization of `t` read from left to right.
pub open spec fn spec_normalize_fold(t: Seq<char>) -> (Seq<char>, bool)
    decreases t.len(),
{
    if t.len() == 0 {
        (Seq::empty(), false)
    } else {
        spec_normalize_step(spec_normalize_fold(t.drop_last()), t.last())
    }
}

/// The lowercase, dash-separated filename component of a display name: the runs of ASCII letters
/// and digits of the trimmed name, lowercased and joined by single dashes.
pub open spec fn spec_normalized_name(name: Seq<char>) -> Seq<char> {
    spec_normalize_fold(spec_trim(name)).0
}

/// Converts a display name to its lowercase, dash-separated filename component.
pub fn normalized_name(name: &str) -> (r: String)
    ensures
        r@ == spec_normalized_name(name@),
{
    let chars = chars_of(name);
    let t = trim_chars(chars.as_slice());
    let v = normalize_chars(t.as_slice());
    string_from_chars(v.as_slice())
}

fn normalize_chars(t: &[char]) -> (r: Vec<char>)
    ensures
        r@ == spec_normalize_fold(t@).0,
{
    let mut normalized: Vec<char> = Vec::new();
    let mut separator_pending = false;
    let mut k: usize = 0;
    while k < t.len()
        invariant
            k <= t@.len(),
            (normalized@, separator_pending) == spec_normalize_fold(t@.subrange(0, k as int)),
        decreases t.len() - k,
    {
        let ch = t[k];
        proof {
            let p = t@.subrange(0, k + 1);
            assert(p.drop_last() =~= t@.subrange(0, k as int));
            assert(p.last() == ch);
        }
        if is_ascii_alphanumeric(ch) {
            if separator_pending && normalized.len() > 0 {
                normalized.push('-');
            }
            normalized.push(ascii_lower(ch));
            separator_pending = false;
        } else {
            separator_pending = true;
        }
        k += 1;
    }
    assert(t@.subrange(0, k as int) =~= t@);
    normalized
}

/// The lowercase hexadecimal digit for `d < 16`.
pub open spec fn spec_hex_digit(d: nat) -> char {
    if d < 10 {
        ((d + 48) as u8) as char
    } else {
        ((d + 87) as u8) as char
    }
}

/// The last `n` lowercase hexadecimal digits of `x`, most significant first.
pub open spec fn spec_hex_digits(x: nat, n: nat) -> Seq<char>
    decreases n,
{
    if n == 0 {
        Seq::empty()
    } else {
        spec_hex_digits(x / 16, (n - 1) as nat).push(spec_hex_digit(x % 16))
    }
}

/// Whether `c` is a lowercase hexadecimal digit.
pub open spec fn spec_is_lower_hex(c: char) -> bool {
    ('0' <= c && c <= '9') || ('a' <= c && c <= 'f')
}

fn hex_digit(d: u32) -> (c: char)
    requires
        d < 16,
    ensures
        c == spec_hex_digit(d as nat),
{
    if d < 10 {
        ((d + 48) as u8) as char
    } else {
        ((d + 87) as u8) as char
    }
}

fn push_hex_digits(x: u32, n: u32, out: &mut Vec<char>)
    ensures
        final(out)@ == old(out)@ + spec_hex_digits(x as nat, n as nat),
    decreases n,
{
    if n > 0 {
        push_hex_digits(x / 16, n - 1, out);
        out.push(hex_digit(x % 16));
        assert(final(out)@ =~= old(out)@ + spec_hex_digits(x as nat, n as nat));
    } else {
        assert(old(out)@ + spec_hex_digits(x as nat, n as nat) =~= old(out)@);
    }
}

/// The slug made of a normalized display name, a dash and an eight-digit hexadecimal suffix.
pub open spec fn spec_slug_with_suffix(name: Seq<char>, suffix: u32) -> Seq<char> {
    spec_normalized_name(name) + seq!['-'] + spec_hex_digits(suffix as nat, 8)
}

/// Combines a normalized display name with an eight-character hexadecimal suffix.
pub fn slug_with_suffix(name: &str, suffix: u32) -> (r: String)
    ensures
        r@ == spec_slug_with_suffix(name@, suffix),
{
    let chars = chars_of(name);
    let t = trim_chars(chars.as_slice());
    let mut v = normalize_chars(t.as_slice());
    v.push('-');
    push_hex_digits(suffix, 8, &mut v);
    string_from_chars(v.as_slice())
}

/// The index of the last occurrence of `c` in `s`, or `-1`.
pub open spec fn spec_rfind(s: Seq<char>, c: char) -> int
    decreases s.len(),
{
    if s.len() == 0 {
        -1
    } else if s.last() == c {
        s.len() - 1
    } else {
        spec_rfind(s.drop_last(), c)
    }
}

/// The random suffix of a valid slug: the text after its last dash, when the text before it is
/// not empty and the suffix is exactly eight lowercase hexadecimal digits.
pub open spec fn spec_slug_suffix(slug: Seq<char>) -> Option<Seq<char>> {
    let d = spec_rfind(slug, '-');
    let base = slug.subrange(0, d);
    let suffix = slug.subrange(d + 1, slug.len() as int);
    if d >= 0 && base.len() > 0 && suffix.len() == 8 && (forall|i: int|
        0 <= i < 8 ==> spec_is_lower_hex(#[trigger] suffix[i])) {
        Some(suffix)
    } else {
        None
    }
}

proof fn lemma_rfind_props(s: Seq<char>, c: char)
    ensures
        -1 <= spec_rfind(s, c) < s.len(),
        spec_rfind(s, c) >= 0 ==> s[spec_rfind(s, c)] == c,
        forall|i: int| spec_rfind(s, c) < i < s.len() ==> s[i] != c,
    decreases s.len(),
{
    if s.len() > 0 && s.last() != c {
        let t = s.drop_last();
        lemma_rfind_props(t, c);
        assert forall|i: int| spec_rfind(s, c) < i < s.len() implies s[i] != c by {
            if i < s.len() - 1 {
                assert(s[i] == t[i]);
            }
        }
    }
}

fn rfind_dash(s: &[char]) -> (r: Option<usize>)
    ensures
        match r {
            Some(i) => i == spec_rfind(s@, '-'),
            None => spec_rfind(s@, '-') == -1,
        },
{
    let mut j: usize = s.len();
    assert(s@.subrange(0, j as int) =~= s@);
    while j > 0
        invariant
            j <= s@.len(),
            spec_rfind(s@, '-') == spec_rfind(s@.subrange(0, j as int), '-'),
        decreases j,
    {
        let ghost p = s@.subrange(0, j as int);
        assert(p.drop_last() =~= s@.subrange(0, j - 1));
        if s[j - 1] == '-' {
            return Some(j - 1);
        }
        j -= 1;
    }
    None
}

/// Returns the hexadecimal suffix from a valid layout slug.
pub fn slug_suffix(slug: &str) -> (r: Option<&str>)
    ensures
        match (r, spec_slug_suffix(slug@)) {
            (Some(s), Some(t)) => s@ == t,
            (None, None) => true,
            _ => false,
        },
{
    let chars = chars_of(slug);
    let n = chars.len();
    proof {
        lemma_rfind_props(slug@, '-');
    }
    let d = match rfind_dash(chars.as_slice()) {
        Some(d) => d,
        None => return None,
    };
    if d == 0 || n - d - 1 != 8 {
        return None;
    }
    let mut k: usize = d + 1;
    while k < n
        invariant
            d + 1 <= k <= n,
            n == chars@.len(),
            chars@ == slug@,
            d == spec_rfind(slug@, '-'),
            d > 0,
            n - d - 1 == 8,
            forall|i: int| d + 1 <= i < k ==> spec_is_lower_hex(#[trigger] chars@[i]),
        decreases n - k,
    {
        let c = chars[k];
        if !(('0' <= c && c <= '9') || ('a' <= c && c <= 'f')) {
            proof {
                let suffix = slug@.subrange(d + 1, n as int);
                assert(suffix[k - d - 1] == c);
                assert(!spec_is_lower_hex(suffix[k - d - 1]));
            }
            return None;
        }
        k += 1;
    }
    proof {
        let suffix = slug@.subrange(d + 1, n as int);
        assert forall|i: int| 0 <= i < 8 implies spec_is_lower_hex(#[trigger] suffix[i]) by {
            assert(suffix[i] == chars@[i + d + 1]);
        }
    }
    Some(slug.substring_char(d + 1, n))
}

/// The slug of a renamed layout: the new normalized name joined to the old slug's suffix.
pub open spec fn spec_renamed_slug(name: Seq<char>, old_slug: Seq<char>) -> Option<Seq<char>> {
    match spec_slug_suffix(old_slug) {
        Some(suffix) => Some(spec_normalized_name(name) + seq!['-'] + suffix),
        None => None,
    }
}

/// Rebuilds a slug for a renamed layout while preserving its random suffix.
pub fn renamed_slug(name: &str, old_slug: &str) -> (r: Option<String>)
    ensures
        match (r, spec_renamed_slug(name@, old_slug@)) {
            (Some(s), Some(t)) => s@ == t,
            (None, None) => true,
            _ => false,
        },
{
    match slug_suffix(old_slug) {
        Some(suffix) => {
            proof {
                reveal_strlit("-");
            }
            let n = normalized_name(name);
            let s = n.concat("-");
            Some(s.concat(suffix))
        },
        None => None,
    }
}

/// Whether `c` is a lowercase ASCII letter or a digit.
pub open spec fn spec_is_lower_alnum(c: char) -> bool {
    ('0' <= c && c <= '9') || ('a' <= c && c <= 'z')
}

/// Whether `s` has the shape of a normalized name: lowercase letters, digits and single dashes,
/// with no dash at either end.
pub open spec fn spec_is_slug_base(s: Seq<char>) -> bool {
    &&& forall|i: int| 0 <= i < s.len() ==> spec_is_lower_alnum(#[trigger] s[i]) || s[i] == '-'
    &&& s.len() > 0 ==> s[0] != '-' && s.last() != '-'
    &&& forall|i: int| 0 <= i < s.len() - 1 ==> !(#[trigger] s[i] == '-' && s[i + 1] == '-')
}

proof fn lemma_lower_of_alnum(c: char)
    requires
        spec_is_ascii_alphanumeric(c),
    ensures
        spec_is_lower_alnum(spec_ascii_lower(c)),
        spec_is_ascii_alphanumeric(spec_ascii_lower(c)),
{
    if 'A' <= c && c <= 'Z' {
        let v = (c as u32) + 32;
        assert(0x61 <= v && v <= 0x7a);
        assert(('a' as u32) == 0x61 && ('z' as u32) == 0x7a);
    }
}

proof fn lemma_fold_is_slug_base(t: Seq<char>)
    ensures
        spec_is_slug_base(spec_normalize_fold(t).0),
    decreases t.len(),
{
    if t.len() > 0 {
        let prev = spec_normalize_fold(t.drop_last());
        lemma_fold_is_slug_base(t.drop_last());
        let c = t.last();
        if spec_is_ascii_alphanumeric(c) {
            lemma_lower_of_alnum(c);
            let out = if prev.1 && prev.0.len() > 0 {
                prev.0.push('-')
            } else {
                prev.0
            };
            let r = out.push(spec_ascii_lower(c));
            assert(r == spec_normalize_fold(t).0);
            assert forall|i: int| 0 <= i < r.len() - 1 implies !(#[trigger] r[i] == '-' && r[i + 1]
                == '-') by {
                if i + 1 < out.len() {
                    assert(r[i] == out[i] && r[i + 1] == out[i + 1]);
                    if out.len() > prev.0.len() && i + 1 == prev.0.len() {
                        assert(prev.0.last() != '-');
                    } else {
                        assert(out[i] == prev.0[i] && out[i + 1] == prev.0[i + 1]);
                    }
                }
            }
            assert forall|i: int| 0 <= i < r.len() implies spec_is_lower_alnum(#[trigger] r[i]) || r[i]
                == '-' by {
                if i < prev.0.len() {
                    assert(r[i] == prev.0[i]);
                }
            }
        }
    }
}

/// A normalized name is made of lowercase letters, digits and single dashes, and neither starts
/// nor ends with a dash.
pub proof fn law_normalized_name_shape(name: Seq<char>)
    ensures
        spec_is_slug_base(spec_normalized_name(name)),
{
    lemma_fold_is_slug_base(spec_trim(name));
}

proof fn lemma_trim_no_whitespace(s: Seq<char>)
    requires
        forall|i: int| 0 <= i < s.len() ==> !spec_is_whitespace(#[trigger] s[i]),
    ensures
        spec_trim(s) == s,
{
    if s.len() > 0 {
        assert(!spec_is_whitespace(s[0]));
        assert(!spec_is_whitespace(s[s.len() - 1]));
    }
    assert(spec_trim_start(s) == s);
    assert(spec_trim_end(s) == s);
}

proof fn lemma_fold_of_slug_base_prefix(w: Seq<char>, k: int)
    requires
        spec_is_slug_base(w),
        0 <= k <= w.len(),
    ensures
        spec_normalize_fold(w.subrange(0, k)) == (if k > 0 && w[k - 1] == '-' {
            (w.subrange(0, k - 1), true)
        } else {
            (w.subrange(0, k), false)
        }),
    decreases k,
{
    if k > 0 {
        let p = w.subrange(0, k);
        assert(p.drop_last() =~= w.subrange(0, k - 1));
        lemma_fold_of_slug_base_prefix(w, k - 1);
        let c = w[k - 1];
        assert(p.last() == c);
        if c == '-' {
            assert(k - 1 != 0);
            assert(!(w[k - 2] == '-' && w[k - 1] == '-'));
        } else {
            assert(spec_is_lower_alnum(c));
            assert(spec_ascii_lower(c) == c);
            if k >= 2 && w[k - 2] == '-' {
                assert(k - 2 != 0);
                assert(w.subrange(0, k - 2).push('-').push(c) =~= p);
            } else {
                assert(w.subrange(0, k - 1).push(c) =~= p);
            }
        }
    } else {
        assert(w.subrange(0, 0) =~= Seq::<char>::empty());
    }
}

/// The ASCII letters and digits of `s`, in order, lowercased.
pub open spec fn spec_lower_alnums(s: Seq<char>) -> Seq<char>
    decreases s.len(),
{
    if s.len() == 0 {
        Seq::empty()
    } else if spec_is_ascii_alphanumeric(s.last()) {
        spec_lower_alnums(s.drop_last()).push(spec_ascii_lower(s.last()))
    } else {
        spec_lower_alnums(s.drop_last())
    }
}

/// `s` without its dashes.
pub open spec fn spec_without_dashes(s: Seq<char>) -> Seq<char>
    decreases s.len(),
{
    if s.len() == 0 {
        Seq::empty()
    } else if s.last() == '-' {
        spec_without_dashes(s.drop_last())
    } else {
        spec_without_dashes(s.drop_last()).push(s.last())
    }
}

proof fn lemma_whitespace_not_alnum(c: char)
    requires
        spec_is_whitespace(c),
    ensures
        !spec_is_ascii_alphanumeric(c),
{
    assert(('0' as u32) == 0x30 && ('9' as u32) == 0x39 && ('a' as u32) == 0x61 && ('z' as u32) == 0x7a);
    assert(('A' as u32) == 0x41 && ('Z' as u32) == 0x5a);
}

proof fn lemma_fold_keeps_alnums(t: Seq<char>)
    ensures
        spec_without_dashes(spec_normalize_fold(t).0) == spec_lower_alnums(t),
    decreases t.len(),
{
    if t.len() > 0 {
        lemma_fold_keeps_alnums(t.drop_last());
        let prev = spec_normalize_fold(t.drop_last());
        let c = t.last();
        if spec_is_ascii_alphanumeric(c) {
            lemma_lower_of_alnum(c);
            let out = if prev.1 && prev.0.len() > 0 {
                prev.0.push('-')
            } else {
                prev.0
            };
            let r = out.push(spec_ascii_lower(c));
            assert(spec_normalize_fold(t).0 == r);
            assert(r.drop_last() == out);
            assert(r.last() == spec_ascii_lower(c));
            assert(spec_ascii_lower(c) != '-');
            assert(spec_without_dashes(r) == spec_without_dashes(out).push(spec_ascii_lower(c)));
            if prev.1 && prev.0.len() > 0 {
                assert(prev.0.push('-').drop_last() == prev.0);
                assert(spec_without_dashes(out) == spec_without_dashes(prev.0));
            }
            assert(spec_lower_alnums(t) == spec_lower_alnums(t.drop_last()).push(spec_ascii_lower(c)));
        } else {
            assert(spec_normalize_fold(t).0 == prev.0);
            assert(spec_lower_alnums(t) == spec_lower_alnums(t.drop_last()));
        }
    }
}

proof fn lemma_lower_alnums_cons(c: char, r: Seq<char>)
    ensures
        spec_lower_alnums(seq![c] + r) == (if spec_is_ascii_alphanumeric(c) {
            seq![spec_ascii_lower(c)]
        } else {
            Seq::<char>::empty()
        }) + spec_lower_alnums(r),
    decreases r.len(),
{
    if r.len() == 0 {
        assert((seq![c] + r).drop_last() =~= Seq::<char>::empty());
        assert(spec_lower_alnums(Seq::<char>::empty()) == Seq::<char>::empty());
        if spec_is_ascii_alphanumeric(c) {
            assert(Seq::<char>::empty().push(spec_ascii_lower(c)) =~= seq![spec_ascii_lower(c)]);
        }
        assert(seq![c] + r =~= seq![c]);
    } else {
        lemma_lower_alnums_cons(c, r.drop_last());
        assert((seq![c] + r).drop_last() =~= seq![c] + r.drop_last());
        assert((seq![c] + r).last() == r.last());
        let head = if spec_is_ascii_alphanumeric(c) {
            seq![spec_ascii_lower(c)]
        } else {
            Seq::<char>::empty()
        };
        if spec_is_ascii_alphanumeric(r.last()) {
            assert((head + spec_lower_alnums(r.drop_last())).push(spec_ascii_lower(r.last())) =~= head
                + spec_lower_alnums(r.drop_last()).push(spec_ascii_lower(r.last())));
        }
    }
}

proof fn lemma_trim_keeps_alnums(s: Seq<char>)
    ensures
        spec_lower_alnums(spec_trim_start(s)) == spec_lower_alnums(s),
        spec_lower_alnums(spec_trim_end(s)) == spec_lower_alnums(s),
    decreases s.len(),
{
    if s.len() > 0 {
        lemma_trim_keeps_alnums(s.drop_first());
        lemma_trim_keeps_alnums(s.drop_last());
        if spec_is_whitespace(s[0]) {
            lemma_whitespace_not_alnum(s[0]);
            assert(seq![s[0]] + s.drop_first() =~= s);
            lemma_lower_alnums_cons(s[0], s.drop_first());
            assert(Seq::<char>::empty() + spec_lower_alnums(s.drop_first()) =~= spec_lower_alnums(s.drop_first()));
        }
        if spec_is_whitespace(s.last()) {
            lemma_whitespace_not_alnum(s.last());
        }
    }
}

/// A normalized name keeps the letters and digits of the display name: without its dashes, it
/// is the name's ASCII letters and digits in order, lowercased.
pub proof fn law_normalized_name_keeps_alphanumerics(name: Seq<char>)
    ensures
        spec_without_dashes(spec_normalized_name(name)) == spec_lower_alnums(name),
{
    lemma_fold_keeps_alnums(spec_trim(name));
    lemma_trim_keeps_alnums(name);
    lemma_trim_keeps_alnums(spec_trim_start(name));
}

proof fn lemma_trim_start_first(s: Seq<char>)
    ensures
        spec_trim_start(s).len() > 0 ==> !spec_is_whitespace(spec_trim_start(s)[0]),
    decreases s.len(),
{
    if s.len() > 0 && spec_is_whitespace(s[0]) {
        lemma_trim_start_first(s.drop_first());
    }
}

proof fn lemma_trim_end_prefix(u: Seq<char>)
    ensures
        spec_trim_end(u).len() <= u.len(),
        spec_trim_end(u) == u.subrange(0, spec_trim_end(u).len() as int),
        spec_trim_end(u).len() > 0 ==> !spec_is_whitespace(spec_trim_end(u).last()),
    decreases u.len(),
{
    if u.len() > 0 && spec_is_whitespace(u.last()) {
        lemma_trim_end_prefix(u.drop_last());
        let v = spec_trim_end(u.drop_last());
        assert(u.drop_last().subrange(0, v.len() as int) =~= u.subrange(0, v.len() as int));
    } else {
        assert(u.subrange(0, u.len() as int) =~= u);
    }
}

proof fn lemma_trim_idempotent(s: Seq<char>)
    ensures
        spec_trim(spec_trim(s)) == spec_trim(s),
{
    let u = spec_trim_start(s);
    let v = spec_trim_end(u);
    lemma_trim_start_first(s);
    lemma_trim_end_prefix(u);
    if v.len() > 0 {
        assert(v[0] == u[0]);
        assert(spec_trim_start(v) == v);
        assert(spec_trim_end(v) == v);
    } else {
        assert(spec_trim_start(v) == v);
        assert(spec_trim_end(v) == v);
    }
}

/// Validation refuses a name as empty exactly when it is blank, never reports a duplicate (only
/// the catalog does), and is stable: a name it accepts, validated again, is accepted unchanged.
pub proof fn law_validated_name_is_stable(name: Seq<char>)
    ensures
        (spec_validated_display_name(name) is Err && spec_validated_display_name(name)->Err_0 is Empty)
            <==> spec_trim(name).len() == 0,
        !(spec_validated_display_name(name) matches Err(LayoutNameError::Duplicate(_))),
        spec_validated_display_name(name) matches Ok(t) ==> spec_validated_display_name(t) == Ok::<
            Seq<char>,
            LayoutNameError,
        >(t),
{
    lemma_trim_idempotent(name);
}

/// Normalizing a normalized name leaves it unchanged.
pub proof fn law_normalizing_twice_changes_nothing(name: Seq<char>)
    ensures
        spec_normalized_name(spec_normalized_name(name)) == spec_normalized_name(name),
{
    let w = spec_normalized_name(name);
    law_normalized_name_shape(name);
    assert forall|i: int| 0 <= i < w.len() implies !spec_is_whitespace(#[trigger] w[i]) by {
        assert(spec_is_lower_alnum(w[i]) || w[i] == '-');
    }
    lemma_trim_no_whitespace(w);
    lemma_fold_of_slug_base_prefix(w, w.len() as int);
    assert(w.subrange(0, w.len() as int) =~= w);
}

proof fn lemma_hex_digits_shape(x: nat, n: nat)
    ensures
        spec_hex_digits(x, n).len() == n,
        forall|i: int| 0 <= i < n ==> spec_is_lower_hex(#[trigger] spec_hex_digits(x, n)[i]),
    decreases n,
{
    if n > 0 {
        lemma_hex_digits_shape(x / 16, (n - 1) as nat);
        let d = x % 16;
        assert(spec_is_lower_hex(spec_hex_digit(d))) by {
            if d < 10 {
                assert(((d + 48) as u8) as char == ((d + 48) as u8) as char);
            }
        }
        let s = spec_hex_digits(x, n);
        assert forall|i: int| 0 <= i < n implies spec_is_lower_hex(#[trigger] s[i]) by {
            if i < n - 1 {
                assert(s[i] == spec_hex_digits(x / 16, (n - 1) as nat)[i]);
            }
        }
    }
}

proof fn lemma_rfind_after_dash(a: Seq<char>, h: Seq<char>)
    requires
        forall|i: int| 0 <= i < h.len() ==> #[trigger] h[i] != '-',
    ensures
        spec_rfind(a + seq!['-'] + h, '-') == a.len(),
    decreases h.len(),
{
    let s = a + seq!['-'] + h;
    if h.len() == 0 {
        assert(s.last() == '-');
    } else {
        assert(s.last() == h.last());
        assert(s.drop_last() =~= a + seq!['-'] + h.drop_last());
        lemma_rfind_after_dash(a, h.drop_last());
    }
}

proof fn lemma_suffix_of_joined(base: Seq<char>, suffix: Seq<char>)
    requires
        suffix.len() == 8,
        forall|i: int| 0 <= i < 8 ==> spec_is_lower_hex(#[trigger] suffix[i]),
    ensures
        spec_slug_suffix(base + seq!['-'] + suffix) == (if base.len() > 0 {
            Some(suffix)
        } else {
            None::<Seq<char>>
        }),
{
    let s = base + seq!['-'] + suffix;
    assert forall|i: int| 0 <= i < suffix.len() implies #[trigger] suffix[i] != '-' by {
        assert(spec_is_lower_hex(suffix[i]));
    }
    lemma_rfind_after_dash(base, suffix);
    assert(s.subrange(0, base.len() as int) =~= base);
    assert(s.subrange(base.len() + 1int, s.len() as int) =~= suffix);
}

/// The suffix of a generated slug is the eight-digit hexadecimal form of the number it was made
/// with, whenever the name normalizes to something non-empty (otherwise the slug has no valid suffix).
pub proof fn law_generated_slug_has_its_suffix(name: Seq<char>, suffix: u32)
    ensures
        spec_slug_suffix(spec_slug_with_suffix(name, suffix)) == (if spec_normalized_name(name).len()
            > 0 {
            Some(spec_hex_digits(suffix as nat, 8))
        } else {
            None::<Seq<char>>
        }),
{
    lemma_hex_digits_shape(suffix as nat, 8);
    lemma_suffix_of_joined(spec_normalized_name(name), spec_hex_digits(suffix as nat, 8));
}

/// Renaming keeps the random suffix of the old slug, whenever the new name normalizes to something
/// non-empty.
pub proof fn law_rename_keeps_suffix(name: Seq<char>, old_slug: Seq<char>)
    requires
        spec_slug_suffix(old_slug) is Some,
    ensures
        spec_renamed_slug(name, old_slug) is Some,
        spec_slug_suffix(spec_renamed_slug(name, old_slug)->0) == (if spec_normalized_name(name).len()
            > 0 {
            spec_slug_suffix(old_slug)
        } else {
            None::<Seq<char>>
        }),
{
    let suffix = spec_slug_suffix(old_slug)->0;
    lemma_suffix_of_joined(spec_normalized_name(name), suffix);
}

} // verus!
