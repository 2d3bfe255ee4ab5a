use vstd::prelude::*;
use vstd::string::*;

verus! {

/// True when `c` is an ASCII decimal digit.
pub open spec fn is_ascii_digit(c: char) -> bool {
    '0' <= c && c <= '9'
}

/// Numeric value of an ASCII decimal digit.
pub open spec fn digit_value(c: char) -> int
    recommends
        is_ascii_digit(c),
{
    c as int - '0' as int
}

/// True when every character of `s` is an ASCII decimal digit.
pub open spec fn all_digits(s: Seq<char>) -> bool {
    forall|i: int| 0 <= i < s.len() ==> is_ascii_digit(#[trigger] s[i])
}

/// Value of a digit string read most-significant-first.
pub open spec fn digits_value(s: Seq<char>) -> int
    decreases s.len(),
{
    if s.len() == 0 {
        0
    } else {
        digits_value(s.drop_last()) * 10 + digit_value(s.last())
    }
}

pub proof fn lemma_digits_value_nonneg(s: Seq<char>)
    requires
        all_digits(s),
    ensures
        digits_value(s) >= 0,
    decreases s.len(),
{
    if s.len() > 0 {
        lemma_digits_value_nonneg(s.drop_last());
    }
}

/// The value of a digit string never falls below the value of any of its prefixes.
pub proof fn lemma_digits_value_prefix_le(s: Seq<char>, i: int)
    requires
        all_digits(s),
        0 <= i <= s.len(),
    ensures
        digits_value(s.subrange(0, i)) <= digits_value(s),
    decreases s.len() - i,
{
    if i < s.len() {
        let p = s.subrange(0, i);
        let q = s.subrange(0, i + 1);
        assert(q.drop_last() =~= p);
        lemma_digits_value_nonneg(p);
        lemma_digits_value_prefix_le(s, i + 1);
    } else {
        assert(s.subrange(0, i) =~= s);
    }
}

/// Executable test for an ASCII decimal digit.
pub fn char_is_digit(c: char) -> (r: bool)
    ensures
        r == is_ascii_digit(c),
{
    '0' <= c && c <= '9'
}

/// Compare two string slices character by character.
#[verifier::loop_isolation(false)]
pub fn str_eq(a: &str, b: &str) -> (r: bool)
    ensures
        r == (a@ == b@),
{
    let alen = a.unicode_len();
    let blen = b.unicode_len();
    if alen != blen {
        return false;
    }
    let mut i: usize = 0;
    while i < alen
        invariant
            0 <= i <= alen,
            alen == a@.len(),
            alen == b@.len(),
            forall|j: int| 0 <= j < i ==> a@[j] == b@[j],
        decreases alen - i,
    {
        if a.get_char(i) != b.get_char(i) {
            return false;
        }
        i += 1;
    }
    proof {
        assert(a@ =~= b@);
    }
    true
}

/// The integer denoted by `s`: an optional sign, then at least one ASCII digit,
/// in the range of `i32`; any other string denotes nothing.
pub open spec fn spec_parse_i32(s: Seq<char>) -> Option<i32> {
    let negative = s.len() > 0 && s[0] == '-';
    let digits = if s.len() > 0 && (s[0] == '-' || s[0] == '+') {
        s.subrange(1, s.len() as int)
    } else {
        s
    };
    if digits.len() == 0 || !all_digits(digits) {
        None
    } else {
        let v = if negative {
            -digits_value(digits)
        } else {
            digits_value(digits)
        };
        if i32::MIN <= v <= i32::MAX {
            Some(v as i32)
        } else {
            None
        }
    }
}

/// Parse `s` as an `i32`: an optional `+` or `-` sign followed by decimal digits.
#[verifier::loop_isolation(false)]
pub fn parse_i32(s: &str) -> (r: Option<i32>)
    ensures
        r == spec_parse_i32(s@),
{
    let n = s.unicode_len();
    let mut start: usize = 0;
    let mut negative = false;
    if n > 0 {
        let c0 = s.get_char(0);
        if c0 == '-' {
            negative = true;
            start = 1;
        } else if c0 == '+' {
            start = 1;
        }
    }
    let ghost digits = s@.subrange(start as int, n as int);
    proof {
        assert(s@.subrange(0, n as int) =~= s@);
    }
    if start == n {
        return None;
    }
    let mut acc: i64 = 0;
    let mut i: usize = start;
    while i < n
        invariant
            start <= i <= n,
            n == s@.len(),
            start < n,
            digits == s@.subrange(start as int, n as int),
            0 <= acc <= 0x8000_0000,
            acc == digits_value(s@.subrange(start as int, i as int)),
            all_digits(s@.subrange(start as int, i as int)),
        decreases n - i,
    {
        let c = s.get_char(i);
        if !char_is_digit(c) {
            assert(digits[i - start] == c);
            return None;
        }
        let d: i64 = (c as i64) - ('0' as i64);
        let next: i64 = acc * 10 + d;
        proof {
            assert(s@.subrange(start as int, i as int + 1).drop_last() =~= s@.subrange(
                start as int,
                i as int,
            ));
        }
        if next > 0x8000_0000 {
            proof {
                if all_digits(digits) {
                    lemma_digits_value_prefix_le(digits, i + 1 - start);
                    assert(digits.subrange(0, i + 1 - start) =~= s@.subrange(
                        start as int,
                        i as int + 1,
                    ));
                }
            }
            return None;
        }
        acc = next;
        i += 1;
    }
    proof {
        assert(s@.subrange(start as int, i as int) =~= digits);
    }
    if negative {
        Some((-acc) as i32)
    } else {
        if acc > 0x7fff_ffff {
            None
        } else {
            Some(acc as i32)
        }
    }
}

/// Remove one instance of `c` from each end of `s`, if present.
pub open spec fn trim_one(s: Seq<char>, c: char) -> Seq<char> {
    let t = if s.len() > 0 && s[0] == c {
        s.subrange(1, s.len() as int)
    } else {
        s
    };
    if t.len() > 0 && t[t.len() - 1] == c {
        t.subrange(0, t.len() - 1)
    } else {
        t
    }
}

/// Remove one instance of `c` from each end of `s`, if present.
pub fn trim_one_char<'a>(s: &'a str, c: char) -> (r: &'a str)
    ensures
        r@ == trim_one(s@, c),
{
    let n = s.unicode_len();
    let start: usize = if n > 0 && s.get_char(0) == c {
        1
    } else {
        0
    };
    let end: usize = if n > start && s.get_char(n - 1) == c {
        n - 1
    } else {
        n
    };
    let r = s.substring_char(start, end);
    proof {
        assert(r@ =~= trim_one(s@, c));
    }
    r
}

/// Remove every leading instance of `c` from `s`.
pub open spec fn trim_start_all(s: Seq<char>, c: char) -> Seq<char>
    decreases s.len(),
{
    if s.len() > 0 && s[0] == c {
        trim_start_all(s.subrange(1, s.len() as int), c)
    } else {
        s
    }
}

/// Remove every trailing instance of `c` from `s`.
pub open spec fn trim_end_all(s: Seq<char>, c: char) -> Seq<char>
    decreases s.len(),
{
    if s.len() > 0 && s[s.len() - 1] == c {
        trim_end_all(s.subrange(0, s.len() - 1), c)
    } else {
        s
    }
}

/// Remove every instance of `c` from both ends of `s`.
pub open spec fn trim_all(s: Seq<char>, c: char) -> Seq<char> {
    trim_end_all(trim_start_all(s, c), c)
}

proof fn lemma_trim_start_all(s: Seq<char>, c: char, a: int)
    requires
        0 <= a <= s.len(),
        forall|j: int| 0 <= j < a ==> s[j] == c,
        a == s.len() || s[a] != c,
    ensures
        trim_start_all(s, c) == s.subrange(a, s.len() as int),
    decreases a,
{
    if a == 0 {
        assert(s.subrange(0, s.len() as int) =~= s);
    } else {
        let t = s.subrange(1, s.len() as int);
        lemma_trim_start_all(t, c, a - 1);
        assert(t.subrange(a - 1, t.len() as int) =~= s.subrange(a, s.len() as int));
    }
}

pub proof fn lemma_trim_end_all(s: Seq<char>, c: char, b: int)
    requires
        0 <= b <= s.len(),
        forall|j: int| b <= j < s.len() ==> s[j] == c,
        b == 0 || s[b - 1] != c,
    ensures
        trim_end_all(s, c) == s.subrange(0, b),
    decreases s.len() - b,
{
    if b == s.len() {
        assert(s.subrange(0, b) =~= s);
    } else {
        let t = s.subrange(0, s.len() - 1);
        lemma_trim_end_all(t, c, b);
        assert(t.subrange(0, b) =~= s.subrange(0, b));
    }
}

/// Remove every instance of `c` from both ends of `s`.
#[verifier::loop_isolation(false)]
pub fn trim_all_char<'a>(s: &'a str, c: char) -> (r: &'a str)
    ensures
        r@ == trim_all(s@, c),
{
    let n = s.unicode_len();
    let mut a: usize = 0;
    while a < n && s.get_char(a) == c
        invariant
            0 <= a <= n,
            n == s@.len(),
            forall|j: int| 0 <= j < a ==> s@[j] == c,
        decreases n - a,
    {
        a += 1;
    }
    let mut b: usize = n;
    while b > a && s.get_char(b - 1) == c
        invariant
            a <= b <= n,
            n == s@.len(),
            forall|j: int| b <= j < n ==> s@[j] == c,
        decreases b,
    {
        b -= 1;
    }
    let r = s.substring_char(a, b);
    proof {
        let t = s@.subrange(a as int, n as int);
        lemma_trim_start_all(s@, c, a as int);
        if b == a {
            lemma_trim_end_all(t, c, 0);
        } else {
            lemma_trim_end_all(t, c, b - a);
        }
        assert(t.subrange(0, b - a) =~= s@.subrange(a as int, b as int));
    }
    r
}

/// The two delimiter shapes the metadata documents use: label parts are
/// separated by `!!` optionally preceded by `:`, list-valued fields by `,`.
#[derive(Clone, Copy, Debug, PartialEq, Eq)]
pub enum SplitRule {
    Label,
    Comma,
}

/// Length of the delimiter starting at index `i` of `s`, or 0 when none starts there.
/// The label rule takes the longer `:!!` form before the bare `!!` form, as a
/// leftmost-first matcher would.
pub open spec fn delim_len(rule: SplitRule, s: Seq<char>, i: int) -> int {
    match rule {
        SplitRule::Label => if i + 3 <= s.len() && s[i] == ':' && s[i + 1] == '!' && s[i + 2]
            == '!' {
            3
        } else if i + 2 <= s.len() && s[i] == '!' && s[i + 1] == '!' {
            2
        } else {
            0
        },
        SplitRule::Comma => if i + 1 <= s.len() && s[i] == ',' {
            1
        } else {
            0
        },
    }
}

/// The parts of `s` split at every delimiter, scanning from index `i` with the
/// current part starting at `start`.
pub open spec fn split_from(rule: SplitRule, s: Seq<char>, i: int, start: int) -> Seq<Seq<char>>
    recommends
        0 <= start <= i <= s.len(),
    decreases s.len() - i,
{
    if i >= s.len() {
        seq![s.subrange(start, s.len() as int)]
    } else {
        let l = delim_len(rule, s, i);
        if l > 0 {
            seq![s.subrange(start, i)] + split_from(rule, s, i + l, i + l)
        } else {
            split_from(rule, s, i + 1, start)
        }
    }
}

/// The parts of `s` split at every delimiter of `rule`. A string with no
/// delimiter splits into the one-element sequence holding the string itself.
pub open spec fn spec_split(rule: SplitRule, s: Seq<char>) -> Seq<Seq<char>> {
    split_from(rule, s, 0, 0)
}

/// A string in already-split form: no delimiter of `rule` occurs in it.
pub open spec fn no_delims(rule: SplitRule, s: Seq<char>) -> bool {
    forall|i: int| 0 <= i < s.len() ==> delim_len(rule, s, i) == 0
}

proof fn lemma_split_no_delims(rule: SplitRule, s: Seq<char>, i: int)
    requires
        0 <= i <= s.len(),
        no_delims(rule, s),
    ensures
        split_from(rule, s, i, 0) == seq![s],
    decreases s.len() - i,
{
    if i < s.len() {
        lemma_split_no_delims(rule, s, i + 1);
    } else {
        assert(s.subrange(0, s.len() as int) =~= s);
    }
}

/// The split decoder is idempotent on an already-split part: a string that
/// holds no delimiter and no trim character at either end decodes to the
/// one-element sequence holding itself.
pub proof fn lemma_split_idempotent(rule: SplitRule, s: Seq<char>, c: char)
    requires
        no_delims(rule, s),
        s.len() == 0 || (s[0] != c && s[s.len() - 1] != c),
    ensures
        trim_one(s, c) == s,
        spec_split(rule, trim_one(s, c)) == seq![s],
{
    lemma_split_no_delims(rule, s, 0);
}

/// Length of the delimiter of `rule` starting at index `i` of `s`, or 0.
fn delim_len_at(rule: SplitRule, s: &str, i: usize, n: usize) -> (l: usize)
    requires
        i < n,
        n == s@.len(),
    ensures
        l == delim_len(rule, s@, i as int),
        i + l <= n,
{
    match rule {
        SplitRule::Label => {
            if n - i >= 3 && s.get_char(i) == ':' && s.get_char(i + 1) == '!' && s.get_char(i + 2)
                == '!' {
                3
            } else if n - i >= 2 && s.get_char(i) == '!' && s.get_char(i + 1) == '!' {
                2
            } else {
                0
            }
        },
        SplitRule::Comma => {
            if s.get_char(i) == ',' {
                1
            } else {
                0
            }
        },
    }
}

/// Split `s` at every delimiter of `rule`, each part owned.
#[verifier::loop_isolation(false)]
pub fn split_string(rule: SplitRule, s: &str) -> (r: Vec<String>)
    ensures
        r.deep_view() == spec_split(rule, s@),
        r.len() >= 1,
{
    let n = s.unicode_len();
    let mut parts: Vec<String> = Vec::new();
    let mut start: usize = 0;
    let mut i: usize = 0;
    while i < n
        invariant
            0 <= start <= i <= n,
            spec_split(rule, s@) == parts.deep_view() + split_from(
                rule,
                s@,
                i as int,
                start as int,
            ),
        decreases n - i,
    {
        let l = delim_len_at(rule, s, i, n);
        if l > 0 {
            let piece = s.substring_char(start, i);
            let owned = String::from_str(piece);
            let ghost old_parts = parts.deep_view();
            parts.push(owned);
            proof {
                assert(parts.deep_view() =~= old_parts.push(s@.subrange(
                    start as int,
                    i as int,
                )));
                assert(parts.deep_view() + split_from(rule, s@, i as int + l, i as int + l)
                    =~= old_parts + split_from(rule, s@, i as int, start as int));
            }
            i = i + l;
            start = i;
        } else {
            i = i + 1;
        }
    }
    let piece = s.substring_char(start, n);
    let owned = String::from_str(piece);
    let ghost old_parts = parts.deep_view();
    parts.push(owned);
    proof {
        assert(parts.deep_view() =~= old_parts.push(s@.subrange(start as int, n as int)));
        assert(old_parts.push(s@.subrange(start as int, n as int)) =~= old_parts + split_from(
            rule,
            s@,
            n as int,
            start as int,
        ));
    }
    parts
}

} // verus!
