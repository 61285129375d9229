//! String helpers shared by the protocol and control modules: decimal
//! numbers, substring tests, prefix tests and character access.

use vstd::prelude::*;

verus! {

broadcast use vstd::seq_lib::group_seq_properties, vstd::string::group_string_axioms;

/// The characters of a string slice, in order.
pub fn chars_of(s: &str) -> (r: Vec<char>)
    ensures
        r@ == s@,
{
    let mut v: Vec<char> = Vec::new();
    for c in it: s.chars()
        invariant
            v@ == it.seq().take(it.index() as int),
    {
        v.push(c);
    }
    v
}

/// A string made of the given characters.
pub fn string_of(v: &[char]) -> (r: String)
    ensures
        r@ == v@,
{
    let mut s = String::new();
    let mut i: usize = 0;
    while i < v.len()
        invariant
            i <= v@.len(),
            s@ == v@.take(i as int),
        decreases v.len() - i,
    {
        push_char(&mut s, v[i]);
        i = i + 1;
        assert(s@ =~= v@.take(i as int));
    }
    assert(v@.take(v@.len() as int) =~= v@);
    s
}

/// Whether two string slices hold the same characters.
pub fn str_eq(a: &str, b: &str) -> (r: bool)
    ensures
        r == (a@ == b@),
{
    let x = chars_of(a);
    let y = chars_of(b);
    if x.len() != y.len() {
        return false;
    }
    let mut i: usize = 0;
    while i < x.len()
        invariant
            x@ == a@,
            y@ == b@,
            x@.len() == y@.len(),
            i <= x@.len(),
            forall|j: int| 0 <= j < i ==> x@[j] == y@[j],
        decreases x.len() - i,
    {
        if x[i] != y[i] {
            return false;
        }
        i = i + 1;
    }
    assert(x@ =~= y@);
    true
}

/// Append one character (std's `String::push`).
#[verifier::external_body]
pub(crate) fn push_char(s: &mut String, c: char)
    ensures
        final(s)@ == old(s)@.push(c),
{
    s.push(c);
}

/// Append a string slice.
pub fn push_str(s: &mut String, t: &str)
    ensures
        final(s)@ == old(s)@ + t@,
{
    s.append(t);
}

/// What std's `str::to_lowercase` returns for a string: the Unicode lower-case
/// mapping of each character.
pub uninterp spec fn lowercase(s: Seq<char>) -> Seq<char>;

/// std's `str::to_lowercase`.
#[verifier::external_body]
pub(crate) fn to_lower(s: &str) -> (r: String)
    ensures
        r@ == lowercase(s@),
{
    s.to_lowercase()
}

/// The character of a decimal digit.
pub open spec fn digit_char(d: nat) -> char {
    ((('0' as u32) as nat) + d) as char
}

/// Whether a character is an ASCII decimal digit.
pub open spec fn is_digit(c: char) -> bool {
    '0' <= c && c <= '9'
}

/// The value of a decimal digit character.
pub open spec fn digit_value(c: char) -> nat {
    ((c as u32) - ('0' as u32)) as nat
}

/// The decimal representation of a natural number, without leading zeros.
pub open spec fn decimal(n: nat) -> Seq<char>
    decreases n,
{
    if n < 10 {
        seq![digit_char(n)]
    } else {
        decimal(n / 10).push(digit_char(n % 10))
    }
}

/// The decimal representation left-padded with zeros to at least `width`
/// characters.
pub open spec fn zero_padded(n: nat, width: nat) -> Seq<char> {
    let d = decimal(n);
    if d.len() >= width {
        d
    } else {
        Seq::new((width - d.len()) as nat, |i: int| '0') + d
    }
}

/// The value of a string of decimal digits.
pub open spec fn digits_value(s: Seq<char>) -> nat
    decreases s.len(),
{
    if s.len() == 0 {
        0
    } else {
        digits_value(s.drop_last()) * 10 + digit_value(s.last())
    }
}

/// Whether every character is a decimal digit.
pub open spec fn all_digits(s: Seq<char>) -> bool {
    forall|i: int| 0 <= i < s.len() ==> is_digit(#[trigger] s[i])
}

/// What std's `usize::from_str` accepts: an optional `+`, then one or more
/// decimal digits whose value fits in `usize`.
pub open spec fn parsed_usize(s: Seq<char>) -> Option<usize> {
    let body = if s.len() > 0 && s[0] == '+' { s.drop_first() } else { s };
    if body.len() > 0 && all_digits(body) && digits_value(body) <= usize::MAX {
        Some(digits_value(body) as usize)
    } else {
        None
    }
}

/// What std's `u64::from_str` accepts: an optional `+`, then one or more
/// decimal digits whose value fits in `u64`.
pub open spec fn parsed_u64(s: Seq<char>) -> Option<u64> {
    let body = if s.len() > 0 && s[0] == '+' { s.drop_first() } else { s };
    if body.len() > 0 && all_digits(body) && digits_value(body) <= u64::MAX {
        Some(digits_value(body) as u64)
    } else {
        None
    }
}

/// Whether `s` starts with `prefix`.
pub open spec fn has_prefix(s: Seq<char>, prefix: Seq<char>) -> bool {
    prefix.len() <= s.len() && s.take(prefix.len() as int) == prefix
}

/// Whether `needle` occurs in `hay` as a contiguous run.
pub open spec fn has_substring(hay: Seq<char>, needle: Seq<char>) -> bool {
    exists|i: int|
        0 <= i && i + needle.len() <= hay.len() && #[trigger] hay.subrange(i, i + needle.len())
            == needle
}

/// A number's decimal text is non-empty, made of digits only, and reads
/// back as the number.
pub proof fn lemma_decimal_digits(n: nat)
    ensures
        decimal(n).len() > 0,
        all_digits(decimal(n)),
        digits_value(decimal(n)) == n,
    decreases n,
{
    if n >= 10 {
        lemma_decimal_digits(n / 10);
        let d = decimal(n / 10).push(digit_char(n % 10));
        assert(d.drop_last() =~= decimal(n / 10));
        assert(digit_value(digit_char(n % 10)) == n % 10);
        assert(n == (n / 10) * 10 + n % 10);
    } else {
        assert(digit_value(digit_char(n)) == n);
        assert(seq![digit_char(n)].drop_last() =~= Seq::<char>::empty());
        assert(digits_value(Seq::<char>::empty()) == 0);
    }
}

/// Writing a number in decimal and reading it back gives the number.
pub proof fn lemma_decimal_round_trip(n: u64)
    ensures
        parsed_u64(decimal(n as nat)) == Some(n),
{
    lemma_decimal_digits(n as nat);
    let d = decimal(n as nat);
    assert(is_digit(d[0]));
}

/// The decimal representation of a number (std's `u64::to_string`).
pub fn decimal_string(n: u64) -> (s: String)
    ensures
        s@ == decimal(n as nat),
    decreases n,
{
    if n < 10 {
        let mut s = String::new();
        push_char(&mut s, ((n as u8) + 48u8) as char);
        assert(s@ =~= decimal(n as nat));
        s
    } else {
        let mut s = decimal_string(n / 10);
        push_char(&mut s, (((n % 10) as u8) + 48u8) as char);
        s
    }
}

/// The decimal representation left-padded with zeros (`format!("{:0w$}")`).
pub fn zero_padded_string(n: u64, width: usize) -> (s: String)
    ensures
        s@ == zero_padded(n as nat, width as nat),
{
    let d = decimal_string(n);
    let dc = chars_of(d.as_str());
    if dc.len() >= width {
        return d;
    }
    let mut s = String::new();
    let mut i: usize = 0;
    let pad = width - dc.len();
    while i < pad
        invariant
            i <= pad,
            s@ == Seq::new(i as nat, |k: int| '0'),
        decreases pad - i,
    {
        push_char(&mut s, '0');
        i = i + 1;
        assert(s@ =~= Seq::new(i as nat, |k: int| '0'));
    }
    push_str(&mut s, d.as_str());
    s
}

/// The value of a run of decimal digits, when every character is a digit and
/// the value fits in `usize`.
fn digit_run_value(d: &Vec<char>) -> (r: Option<usize>)
    ensures
        r == (if all_digits(d@) && digits_value(d@) <= usize::MAX {
            Some(digits_value(d@) as usize)
        } else {
            None
        }),
{
    let mut acc: usize = 0;
    let mut i: usize = 0;
    while i < d.len()
        invariant
            i <= d@.len(),
            all_digits(d@.take(i as int)),
            acc as nat == digits_value(d@.take(i as int)),
        decreases d.len() - i,
    {
        let c = d[i];
        assert(d@.take(i + 1).drop_last() =~= d@.take(i as int));
        if !('0' <= c && c <= '9') {
            assert(!is_digit(d@[i as int]));
            return None;
        }
        let next = match acc.checked_mul(10) {
            Some(m) => m.checked_add(((c as u32) - ('0' as u32)) as usize),
            None => None,
        };
        match next {
            None => {
                proof {
                    if all_digits(d@) {
                        lemma_prefix_value_bound(d@, i as nat);
                    }
                }
                return None;
            },
            Some(v) => {
                acc = v;
            },
        }
        i = i + 1;
    }
    assert(d@.take(d@.len() as int) =~= d@);
    Some(acc)
}

/// Parse a decimal `usize` as std's `str::parse::<usize>` does.
pub fn parse_usize(s: &str) -> (r: Option<usize>)
    ensures
        r == parsed_usize(s@),
{
    let cs = chars_of(s);
    let start: usize = if cs.len() > 0 && cs[0] == '+' {
        1
    } else {
        0
    };
    let ghost body = if s@.len() > 0 && s@[0] == '+' { s@.drop_first() } else { s@ };
    let mut digits: Vec<char> = Vec::new();
    let mut i: usize = start;
    while i < cs.len()
        invariant
            start <= i <= cs@.len(),
            digits@ == cs@.subrange(start as int, i as int),
        decreases cs.len() - i,
    {
        digits.push(cs[i]);
        i = i + 1;
    }
    assert(digits@ =~= body);
    if digits.len() == 0 {
        return None;
    }
    digit_run_value(&digits)
}

/// The value of a run of decimal digits, when every character is a digit and
/// the value fits in `u64`.
fn digit_run_value_u64(d: &Vec<char>) -> (r: Option<u64>)
    ensures
        r == (if all_digits(d@) && digits_value(d@) <= u64::MAX {
            Some(digits_value(d@) as u64)
        } else {
            None
        }),
{
    let mut acc: u64 = 0;
    let mut i: usize = 0;
    while i < d.len()
        invariant
            i <= d@.len(),
            all_digits(d@.take(i as int)),
            acc as nat == digits_value(d@.take(i as int)),
        decreases d.len() - i,
    {
        let c = d[i];
        assert(d@.take(i + 1).drop_last() =~= d@.take(i as int));
        if !('0' <= c && c <= '9') {
            assert(!is_digit(d@[i as int]));
            return None;
        }
        let next = match acc.checked_mul(10) {
            Some(m) => m.checked_add(((c as u32) - ('0' as u32)) as u64),
            None => None,
        };
        match next {
            None => {
                proof {
                    if all_digits(d@) {
                        lemma_prefix_value_bound(d@, i as nat);
                    }
                }
                return None;
            },
            Some(v) => {
                acc = v;
            },
        }
        i = i + 1;
    }
    assert(d@.take(d@.len() as int) =~= d@);
    Some(acc)
}

/// Parse a decimal `u64` as std's `str::parse::<u64>` does.
pub fn parse_u64(s: &str) -> (r: Option<u64>)
    ensures
        r == parsed_u64(s@),
{
    let cs = chars_of(s);
    let start: usize = if cs.len() > 0 && cs[0] == '+' {
        1
    } else {
        0
    };
    let ghost body = if s@.len() > 0 && s@[0] == '+' { s@.drop_first() } else { s@ };
    let mut digits: Vec<char> = Vec::new();
    let mut i: usize = start;
    while i < cs.len()
        invariant
            start <= i <= cs@.len(),
            digits@ == cs@.subrange(start as int, i as int),
        decreases cs.len() - i,
    {
        digits.push(cs[i]);
        i = i + 1;
    }
    assert(digits@ =~= body);
    if digits.len() == 0 {
        return None;
    }
    digit_run_value_u64(&digits)
}

/// The value of a run of digits never falls below the value of a prefix of it.
proof fn lemma_prefix_value_bound(s: Seq<char>, k: nat)
    requires
        all_digits(s),
        k < s.len(),
    ensures
        digits_value(s) >= digits_value(s.take(k as int + 1)),
        digits_value(s.take(k as int + 1)) == digits_value(s.take(k as int)) * 10 + digit_value(
            s[k as int],
        ),
    decreases s.len(),
{
    assert(s.take(k as int + 1).drop_last() =~= s.take(k as int));
    if k + 1 < s.len() {
        lemma_prefix_value_bound(s.drop_last(), k);
        assert(s.drop_last().take(k as int + 1) =~= s.take(k as int + 1));
        assert(s.drop_last().take(k as int) =~= s.take(k as int));
    } else {
        assert(s.take(k as int + 1) =~= s);
    }
}

/// Whether `s` starts with `prefix` (std's `str::starts_with`).
pub fn starts_with(s: &str, prefix: &str) -> (r: bool)
    ensures
        r == has_prefix(s@, prefix@),
{
    let a = chars_of(s);
    let b = chars_of(prefix);
    if b.len() > a.len() {
        return false;
    }
    let mut i: usize = 0;
    while i < b.len()
        invariant
            i <= b.len() <= a.len(),
            a@ == s@,
            b@ == prefix@,
            forall|j: int| 0 <= j < i ==> a@[j] == b@[j],
        decreases b.len() - i,
    {
        if a[i] != b[i] {
            assert(s@.take(prefix@.len() as int)[i as int] != prefix@[i as int]);
            return false;
        }
        i = i + 1;
    }
    assert(s@.take(prefix@.len() as int) =~= prefix@);
    true
}

/// Whether `needle` occurs at `at` in `hay`.
fn occurs_at(hay: &Vec<char>, needle: &Vec<char>, at: usize) -> (r: bool)
    requires
        at + needle@.len() <= hay@.len(),
    ensures
        r == (hay@.subrange(at as int, at + needle@.len()) == needle@),
{
    let hl = hay.len();
    let mut j: usize = 0;
    while j < needle.len()
        invariant
            hl == hay@.len(),
            j <= needle@.len(),
            at + needle@.len() <= hay@.len(),
            forall|k: int| 0 <= k < j ==> hay@[at + k] == needle@[k],
        decreases needle.len() - j,
    {
        if hay[at + j] != needle[j] {
            assert(hay@.subrange(at as int, at + needle@.len())[j as int] != needle@[j as int]);
            return false;
        }
        j = j + 1;
    }
    assert(hay@.subrange(at as int, at + needle@.len()) =~= needle@);
    true
}

/// Whether `needle` occurs in `hay` (std's `str::contains` with a string
/// pattern).
pub fn contains_substring(hay: &str, needle: &str) -> (r: bool)
    ensures
        r == has_substring(hay@, needle@),
{
    let h = chars_of(hay);
    let n = chars_of(needle);
    if n.len() == 0 {
        assert(hay@.subrange(0int, 0int + needle@.len()) =~= needle@);
        return true;
    }
    if n.len() > h.len() {
        return false;
    }
    let hl = h.len();
    let last = hl - n.len();
    let mut i: usize = 0;
    while i <= last
        invariant
            hl == h@.len(),
            n@.len() >= 1,
            h@ == hay@,
            n@ == needle@,
            last == h@.len() - n@.len(),
            i <= last + 1,
            forall|k: int| 0 <= k < i ==> #[trigger] h@.subrange(k, k + n@.len()) != n@,
        decreases last + 1 - i,
    {
        if occurs_at(&h, &n, i) {
            return true;
        }
        i = i + 1;
    }
    false
}

} // verus!

verus! {

/// Whether `i` is the first position of `c` in `s`.
pub open spec fn is_first_at(s: Seq<char>, c: char, i: int) -> bool {
    0 <= i < s.len() && s[i] == c && forall|j: int| 0 <= j < i ==> s[j] != c
}

/// Whether `i` is the last position of `c` in `s`.
pub open spec fn is_last_at(s: Seq<char>, c: char, i: int) -> bool {
    0 <= i < s.len() && s[i] == c && forall|j: int| i < j < s.len() ==> s[j] != c
}

/// `s` split around the first `c` (std's `str::split_once` with a `char`).
pub open spec fn split_once_spec(s: Seq<char>, c: char) -> Option<(Seq<char>, Seq<char>)> {
    if exists|i: int| is_first_at(s, c, i) {
        let i = choose|i: int| is_first_at(s, c, i);
        Some((s.take(i), s.skip(i + 1)))
    } else {
        None
    }
}

/// `s` split around the last `c` (std's `str::rsplit_once` with a `char`).
pub open spec fn rsplit_once_spec(s: Seq<char>, c: char) -> Option<(Seq<char>, Seq<char>)> {
    if exists|i: int| is_last_at(s, c, i) {
        let i = choose|i: int| is_last_at(s, c, i);
        Some((s.take(i), s.skip(i + 1)))
    } else {
        None
    }
}

proof fn lemma_first_unique(s: Seq<char>, c: char, i: int, k: int)
    requires
        is_first_at(s, c, i),
        is_first_at(s, c, k),
    ensures
        i == k,
{
}

proof fn lemma_last_unique(s: Seq<char>, c: char, i: int, k: int)
    requires
        is_last_at(s, c, i),
        is_last_at(s, c, k),
    ensures
        i == k,
{
}

/// The first position of `c` in `v`.
pub fn find_first(v: &Vec<char>, c: char) -> (r: Option<usize>)
    ensures
        match r {
            Some(i) => is_first_at(v@, c, i as int),
            None => forall|j: int| 0 <= j < v@.len() ==> v@[j] != c,
        },
{
    let mut i: usize = 0;
    while i < v.len()
        invariant
            i <= v@.len(),
            forall|j: int| 0 <= j < i ==> v@[j] != c,
        decreases v.len() - i,
    {
        if v[i] == c {
            return Some(i);
        }
        i = i + 1;
    }
    None
}

/// The last position of `c` in `v`.
pub fn find_last(v: &Vec<char>, c: char) -> (r: Option<usize>)
    ensures
        match r {
            Some(i) => is_last_at(v@, c, i as int),
            None => forall|j: int| 0 <= j < v@.len() ==> v@[j] != c,
        },
{
    let mut i: usize = v.len();
    while i > 0
        invariant
            i <= v@.len(),
            forall|j: int| i <= j < v@.len() ==> v@[j] != c,
        decreases i,
    {
        if v[i - 1] == c {
            return Some(i - 1);
        }
        i = i - 1;
    }
    None
}

/// The characters of `v` from `from` up to (not including) `to`, as a string.
pub fn substring(v: &Vec<char>, from: usize, to: usize) -> (r: String)
    requires
        from <= to <= v@.len(),
    ensures
        r@ == v@.subrange(from as int, to as int),
{
    let mut s = String::new();
    let mut i: usize = from;
    while i < to
        invariant
            from <= i <= to <= v@.len(),
            s@ == v@.subrange(from as int, i as int),
        decreases to - i,
    {
        push_char(&mut s, v[i]);
        i = i + 1;
        assert(s@ =~= v@.subrange(from as int, i as int));
    }
    s
}

/// Split around the first `c`.
pub fn split_once(s: &str, c: char) -> (r: Option<(String, String)>)
    ensures
        match r {
            Some((a, b)) => split_once_spec(s@, c) == Some((a@, b@)),
            None => split_once_spec(s@, c) is None,
        },
{
    let v = chars_of(s);
    let n = v.len();
    match find_first(&v, c) {
        Some(i) => {
            assert(i < n);
            let a = substring(&v, 0, i);
            let b = substring(&v, i + 1, n);
            proof {
                let k = choose|k: int| is_first_at(s@, c, k);
                lemma_first_unique(s@, c, i as int, k);
                assert(a@ =~= s@.take(i as int));
                assert(b@ =~= s@.skip(i + 1));
            }
            Some((a, b))
        },
        None => None,
    }
}

/// Split around the last `c`.
pub fn rsplit_once(s: &str, c: char) -> (r: Option<(String, String)>)
    ensures
        match r {
            Some((a, b)) => rsplit_once_spec(s@, c) == Some((a@, b@)),
            None => rsplit_once_spec(s@, c) is None,
        },
{
    let v = chars_of(s);
    let n = v.len();
    match find_last(&v, c) {
        Some(i) => {
            assert(i < n);
            let a = substring(&v, 0, i);
            let b = substring(&v, i + 1, n);
            proof {
                let k = choose|k: int| is_last_at(s@, c, k);
                lemma_last_unique(s@, c, i as int, k);
                assert(a@ =~= s@.take(i as int));
                assert(b@ =~= s@.skip(i + 1));
            }
            Some((a, b))
        },
        None => None,
    }
}

/// What is left of `s` after `prefix`, when `s` starts with it (std's
/// `str::strip_prefix`).
pub fn strip_prefix(s: &str, prefix: &str) -> (r: Option<String>)
    ensures
        match r {
            Some(rest) => has_prefix(s@, prefix@) && rest@ == s@.skip(prefix@.len() as int),
            None => !has_prefix(s@, prefix@),
        },
{
    if starts_with(s, prefix) {
        let v = chars_of(s);
        let p = chars_of(prefix);
        Some(substring(&v, p.len(), v.len()))
    } else {
        None
    }
}

/// The number of leading characters of `s` equal to `c`.
pub open spec fn leading_count(s: Seq<char>, c: char) -> nat
    decreases s.len(),
{
    if s.len() > 0 && s[0] == c {
        1 + leading_count(s.drop_first(), c)
    } else {
        0
    }
}

/// `s` with every leading and trailing `c` removed (std's
/// `str::trim_matches` with a `char`).
pub open spec fn trim_matches_spec(s: Seq<char>, c: char) -> Seq<char> {
    let front = leading_count(s, c);
    let rest = s.skip(front as int);
    let back = leading_count(rest.reverse(), c);
    rest.take(rest.len() - back)
}

proof fn lemma_leading_count(s: Seq<char>, c: char, k: nat)
    requires
        k <= s.len(),
        forall|j: int| 0 <= j < k ==> s[j] == c,
        k == s.len() || s[k as int] != c,
    ensures
        leading_count(s, c) == k,
    decreases k,
{
    if k > 0 {
        lemma_leading_count(s.drop_first(), c, (k - 1) as nat);
    }
}

/// Remove every leading and trailing `c`.
pub fn trim_matches(s: &str, c: char) -> (r: String)
    ensures
        r@ == trim_matches_spec(s@, c),
{
    let v = chars_of(s);
    let mut i: usize = 0;
    while i < v.len() && v[i] == c
        invariant
            i <= v@.len(),
            forall|j: int| 0 <= j < i ==> v@[j] == c,
        decreases v.len() - i,
    {
        i = i + 1;
    }
    proof {
        lemma_leading_count(s@, c, i as nat);
    }
    let mut e: usize = v.len();
    while e > i && v[e - 1] == c
        invariant
            i <= e <= v@.len(),
            forall|j: int| e <= j < v@.len() ==> v@[j] == c,
        decreases e,
    {
        e = e - 1;
    }
    proof {
        let rest = s@.skip(i as int);
        let k = (v@.len() - e) as nat;
        assert forall|j: int| 0 <= j < k implies rest.reverse()[j] == c by {
            assert(rest.reverse()[j] == rest[rest.len() - 1 - j]);
        }
        if k < rest.len() {
            assert(rest.reverse()[k as int] == rest[rest.len() - 1 - k]);
        }
        lemma_leading_count(rest.reverse(), c, k);
        assert(rest.take(rest.len() - k) =~= v@.subrange(i as int, e as int));
    }
    substring(&v, i, e)
}

/// `s` with every trailing `c` removed (std's `str::trim_end_matches` with
/// a `char`).
pub open spec fn trim_end_spec(s: Seq<char>, c: char) -> Seq<char> {
    s.take(s.len() - leading_count(s.reverse(), c))
}

/// Remove every trailing `c`.
pub fn trim_end_matches(s: &str, c: char) -> (r: String)
    ensures
        r@ == trim_end_spec(s@, c),
{
    let v = chars_of(s);
    let mut e: usize = v.len();
    while e > 0 && v[e - 1] == c
        invariant
            e <= v@.len(),
            forall|j: int| e <= j < v@.len() ==> v@[j] == c,
        decreases e,
    {
        e = e - 1;
    }
    proof {
        let k = (v@.len() - e) as nat;
        assert forall|j: int| 0 <= j < k implies s@.reverse()[j] == c by {
            assert(s@.reverse()[j] == s@[s@.len() - 1 - j]);
        }
        if k < s@.len() {
            assert(s@.reverse()[k as int] == s@[s@.len() - 1 - k]);
        }
        lemma_leading_count(s@.reverse(), c, k);
        assert(s@.take(s@.len() - k) =~= v@.subrange(0, e as int));
    }
    substring(&v, 0, e)
}

/// The UTF-8 length of a string: the number of bytes std's `str::len`
/// counts.
pub open spec fn utf8_len(s: Seq<char>) -> nat {
    vstd::utf8::encode_utf8(s).len()
}

proof fn lemma_encode_push(s: Seq<char>, c: char)
    ensures
        vstd::utf8::encode_utf8(s.push(c)) == vstd::utf8::encode_utf8(s) + vstd::utf8::encode_scalar(c as u32),
    decreases s.len(),
{
    if s.len() == 0 {
        assert(s.push(c).drop_first() =~= Seq::<char>::empty());
        assert(vstd::utf8::encode_scalar(c as u32) + Seq::<u8>::empty() =~= vstd::utf8::encode_scalar(c as u32));
    } else {
        lemma_encode_push(s.drop_first(), c);
        assert(s.push(c).drop_first() =~= s.drop_first().push(c));
        assert(s.push(c)[0] == s[0]);
        let a = vstd::utf8::encode_scalar(s[0] as u32);
        let b = vstd::utf8::encode_utf8(s.drop_first());
        let d = vstd::utf8::encode_scalar(c as u32);
        assert(a + (b + d) =~= (a + b) + d);
    }
}

/// The number of bytes UTF-8 takes for a character.
fn char_utf8_len(c: char) -> (r: usize)
    ensures
        r == vstd::utf8::encode_scalar(c as u32).len(),
        1 <= r <= 4,
{
    let n = c as u32;
    if n <= 0x7F {
        1
    } else if n <= 0x7FF {
        2
    } else if n <= 0xFFFF {
        3
    } else {
        4
    }
}

/// Whether a string takes at least `n` bytes in UTF-8.
pub fn utf8_len_at_least(s: &str, n: usize) -> (r: bool)
    ensures
        r == (utf8_len(s@) >= n),
{
    if n == 0 {
        return true;
    }
    let v = chars_of(s);
    let mut i: usize = 0;
    let mut acc: usize = 0;
    while i < v.len()
        invariant
            i <= v@.len(),
            v@ == s@,
            acc == utf8_len(s@.take(i as int)),
            acc < n,
        decreases v.len() - i,
    {
        proof {
            lemma_encode_push(s@.take(i as int), s@[i as int]);
            assert(s@.take(i + 1) =~= s@.take(i as int).push(s@[i as int]));
        }
        let w = char_utf8_len(v[i]);
        if w >= n - acc {
            proof {
                lemma_utf8_len_prefix(s@, i + 1);
            }
            return true;
        }
        acc = acc + w;
        i = i + 1;
    }
    assert(s@.take(s@.len() as int) =~= s@);
    false
}

proof fn lemma_utf8_len_prefix(s: Seq<char>, i: int)
    requires
        0 <= i <= s.len(),
    ensures
        utf8_len(s.take(i)) <= utf8_len(s),
    decreases s.len() - i,
{
    if i < s.len() {
        lemma_utf8_len_prefix(s, i + 1);
        lemma_encode_push(s.take(i), s[i]);
        assert(s.take(i + 1) =~= s.take(i).push(s[i]));
    } else {
        assert(s.take(i) =~= s);
    }
}

/// Whether a character is white space as std's `char::is_whitespace`
/// defines it: the Unicode `White_Space` property.
pub open spec fn is_space(c: char) -> bool {
    let n = c as u32;
    (0x09 <= n && n <= 0x0D) || n == 0x20 || n == 0x85 || n == 0xA0 || n == 0x1680 || (0x2000 <= n
        && n <= 0x200A) || n == 0x2028 || n == 0x2029 || n == 0x202F || n == 0x205F || n == 0x3000
}

fn char_is_space(c: char) -> (r: bool)
    ensures
        r == is_space(c),
{
    let n = c as u32;
    (0x09 <= n && n <= 0x0D) || n == 0x20 || n == 0x85 || n == 0xA0 || n == 0x1680 || (0x2000 <= n
        && n <= 0x200A) || n == 0x2028 || n == 0x2029 || n == 0x202F || n == 0x205F || n == 0x3000
}

/// The number of leading white-space characters.
pub open spec fn leading_space(s: Seq<char>) -> nat
    decreases s.len(),
{
    if s.len() > 0 && is_space(s[0]) {
        1 + leading_space(s.drop_first())
    } else {
        0
    }
}

/// `s` without leading and trailing white space (std's `str::trim`).
pub open spec fn trim_spec(s: Seq<char>) -> Seq<char> {
    let rest = s.skip(leading_space(s) as int);
    rest.take(rest.len() - leading_space(rest.reverse()))
}

proof fn lemma_leading_space(s: Seq<char>, k: nat)
    requires
        k <= s.len(),
        forall|j: int| 0 <= j < k ==> is_space(s[j]),
        k == s.len() || !is_space(s[k as int]),
    ensures
        leading_space(s) == k,
    decreases k,
{
    if k > 0 {
        lemma_leading_space(s.drop_first(), (k - 1) as nat);
    }
}

/// Remove leading and trailing white space.
pub fn trim(s: &str) -> (r: String)
    ensures
        r@ == trim_spec(s@),
{
    let v = chars_of(s);
    let mut i: usize = 0;
    while i < v.len() && char_is_space(v[i])
        invariant
            i <= v@.len(),
            forall|j: int| 0 <= j < i ==> is_space(v@[j]),
        decreases v.len() - i,
    {
        i = i + 1;
    }
    proof {
        lemma_leading_space(s@, i as nat);
    }
    let mut e: usize = v.len();
    while e > i && char_is_space(v[e - 1])
        invariant
            i <= e <= v@.len(),
            forall|j: int| e <= j < v@.len() ==> is_space(v@[j]),
        decreases e,
    {
        e = e - 1;
    }
    proof {
        let rest = s@.skip(i as int);
        let k = (v@.len() - e) as nat;
        assert forall|j: int| 0 <= j < k implies is_space(rest.reverse()[j]) by {
            assert(rest.reverse()[j] == rest[rest.len() - 1 - j]);
        }
        if k < rest.len() {
            assert(rest.reverse()[k as int] == rest[rest.len() - 1 - k]);
        }
        lemma_leading_space(rest.reverse(), k);
        assert(rest.take(rest.len() - k) =~= v@.subrange(i as int, e as int));
    }
    substring(&v, i, e)
}

/// The ASCII upper-case of a character (std's `char::to_ascii_uppercase`).
pub open spec fn ascii_upper(c: char) -> char {
    if 'a' <= c && c <= 'z' {
        ((c as u32) - 32) as char
    } else {
        c
    }
}

/// Whether `s` starts with `prefix` once its ASCII letters are upper-cased
/// (`s.to_ascii_uppercase().starts_with(prefix)`).
pub open spec fn has_prefix_ascii_upper(s: Seq<char>, prefix: Seq<char>) -> bool {
    prefix.len() <= s.len() && forall|j: int| 0 <= j < prefix.len() ==> ascii_upper(#[trigger] s[j]) == prefix[j]
}

/// Whether `s`, ASCII letters upper-cased, starts with `prefix`.
pub fn starts_with_ascii_upper(s: &Vec<char>, prefix: &str) -> (r: bool)
    ensures
        r == has_prefix_ascii_upper(s@, prefix@),
{
    let p = chars_of(prefix);
    if p.len() > s.len() {
        return false;
    }
    let mut i: usize = 0;
    while i < p.len()
        invariant
            i <= p@.len() <= s@.len(),
            p@ == prefix@,
            forall|j: int| 0 <= j < i ==> ascii_upper(#[trigger] s@[j]) == p@[j],
        decreases p.len() - i,
    {
        let c = s[i];
        let u = if 'a' <= c && c <= 'z' {
            ((c as u32) - 32) as u8 as char
        } else {
            c
        };
        assert(u == ascii_upper(s@[i as int]));
        if u != p[i] {
            return false;
        }
        i = i + 1;
    }
    true
}

/// The lines of a text as std's `str::lines` yields them: split at each
/// `'\n'`, one trailing `'\r'` removed from each line, and no empty line
/// after a final line break.
pub open spec fn lines_spec(s: Seq<char>) -> Seq<Seq<char>>
    decreases s.len(),
{
    if s.len() == 0 {
        Seq::empty()
    } else if exists|i: int| is_first_at(s, '\n', i) {
        let i = choose|i: int| is_first_at(s, '\n', i);
        seq![strip_cr(s.take(i))] + lines_spec(s.skip(i + 1))
    } else {
        seq![strip_cr(s)]
    }
}

/// A line without its trailing `'\r'`.
pub open spec fn strip_cr(l: Seq<char>) -> Seq<char> {
    if l.len() > 0 && l.last() == '\r' {
        l.drop_last()
    } else {
        l
    }
}

/// The line that starts at `start`, and where the next one starts.
#[verifier::spinoff_prover]
fn next_line(v: &Vec<char>, start: usize) -> (r: (Vec<char>, usize))
    requires
        start < v@.len(),
    ensures
        start < r.1 <= v@.len(),
        lines_spec(v@.skip(start as int)) == seq![r.0@] + lines_spec(v@.skip(r.1 as int)),
{
    let ghost rest = v@.skip(start as int);
    let n = v.len();
    let mut e: usize = start;
    while e < n && v[e] != '\n'
        invariant
            start <= e <= n,
            n == v@.len(),
            forall|j: int| start <= j < e ==> v@[j] != '\n',
        decreases n - e,
    {
        e = e + 1;
    }
    let stop: usize = if e > start && v[e - 1] == '\r' {
        e - 1
    } else {
        e
    };
    let mut line: Vec<char> = Vec::new();
    let mut k: usize = start;
    while k < stop
        invariant
            start <= k <= stop <= e <= n,
            n == v@.len(),
            line@ == v@.subrange(start as int, k as int),
        decreases stop - k,
    {
        line.push(v[k]);
        k = k + 1;
    }
    let next: usize = if e < n {
        e + 1
    } else {
        e
    };
    proof {
        let m = (e - start) as int;
        assert(rest.take(m) =~= v@.subrange(start as int, e as int));
        assert(strip_cr(rest.take(m)) =~= line@);
        assert forall|j: int| 0 <= j < m implies rest[j] != '\n' by {
            assert(rest[j] == v@[start + j]);
        }
        if e < n {
            assert(is_first_at(rest, '\n', m));
            let w = choose|w: int| is_first_at(rest, '\n', w);
            lemma_first_unique(rest, '\n', m, w);
            assert(rest.skip(m + 1) =~= v@.skip(e + 1));
        } else {
            assert forall|i: int| !is_first_at(rest, '\n', i) by {
                if 0 <= i < rest.len() {
                    assert(rest[i] == v@[start + i]);
                }
            }
            assert(rest =~= rest.take(m));
            assert(v@.skip(n as int) =~= Seq::<char>::empty());
        }
    }
    (line, next)
}

/// Split a text into lines.
pub fn lines(s: &str) -> (r: Vec<Vec<char>>)
    ensures
        r@.map_values(|l: Vec<char>| l@) == lines_spec(s@),
{
    let v = chars_of(s);
    let mut out: Vec<Vec<char>> = Vec::new();
    let mut start: usize = 0;
    assert(v@.skip(0) =~= v@);
    while start < v.len()
        invariant
            start <= v@.len(),
            v@ == s@,
            out@.map_values(|l: Vec<char>| l@) + lines_spec(v@.skip(start as int)) == lines_spec(
                s@,
            ),
        decreases v.len() - start,
    {
        let ghost before = out@.map_values(|l: Vec<char>| l@);
        let (line, next) = next_line(&v, start);
        let ghost lv = line@;
        out.push(line);
        proof {
            assert(out@.map_values(|l: Vec<char>| l@) =~= before.push(lv));
            assert(before.push(lv) + lines_spec(v@.skip(next as int)) =~= before + (seq![lv]
                + lines_spec(v@.skip(next as int))));
        }
        start = next;
    }
    assert(v@.skip(v@.len() as int) =~= Seq::<char>::empty());
    assert(out@.map_values(|l: Vec<char>| l@) + Seq::<Seq<char>>::empty() =~= out@.map_values(
        |l: Vec<char>| l@,
    ));
    out
}

} // verus!

verus! {

/// What std's `u32::from_str` accepts: a decimal `u64` reading that fits in
/// `u32`.
pub open spec fn parsed_u32(s: Seq<char>) -> Option<u32> {
    match parsed_u64(s) {
        Some(v) => if v <= u32::MAX {
            Some(v as u32)
        } else {
            None
        },
        None => None,
    }
}

/// Parse a decimal `u32` as std's `str::parse::<u32>` does.
pub fn parse_u32(s: &str) -> (r: Option<u32>)
    ensures
        r == parsed_u32(s@),
{
    match parse_u64(s) {
        Some(v) => if v <= 4294967295u64 {
            Some(v as u32)
        } else {
            None
        },
        None => None,
    }
}

/// The pieces of `s` between the occurrences of `c` (std's `str::split`
/// with a `char`): always at least one piece.
pub open spec fn split_spec(s: Seq<char>, c: char) -> Seq<Seq<char>>
    decreases s.len(),
{
    match split_once_spec(s, c) {
        Some((a, b)) => {
            if b.len() < s.len() {
                seq![a] + split_spec(b, c)
            } else {
                seq![a]
            }
        },
        None => seq![s],
    }
}

/// Split `s` at every `c`.
pub fn split_char(s: &str, c: char) -> (r: Vec<String>)
    ensures
        r@.map_values(|p: String| p@) == split_spec(s@, c),
    decreases s@.len(),
{
    match split_once(s, c) {
        Some((a, b)) => {
            proof {
                let i = choose|i: int| is_first_at(s@, c, i);
                assert(b@.len() < s@.len());
            }
            let rest = split_char(b.as_str(), c);
            let mut r: Vec<String> = Vec::new();
            r.push(a);
            let ghost first = r@.map_values(|p: String| p@);
            let mut i: usize = 0;
            while i < rest.len()
                invariant
                    i <= rest@.len(),
                    r@.map_values(|p: String| p@) == first + rest@.take(i as int).map_values(|p: String| p@),
                decreases rest.len() - i,
            {
                let ghost prev = r@.map_values(|p: String| p@);
                let piece = rest[i].clone();
                let ghost pv = piece@;
                r.push(piece);
                proof {
                    assert(r@.map_values(|p: String| p@) =~= prev.push(pv));
                    assert(rest@.take(i + 1).map_values(|p: String| p@) =~= rest@.take(i as int).map_values(
                        |p: String| p@,
                    ).push(rest@[i as int]@));
                }
                i = i + 1;
            }
            assert(rest@.take(rest@.len() as int) =~= rest@);
            r
        },
        None => {
            let r = vec![s.to_owned()];
            assert(r@.map_values(|p: String| p@) =~= seq![s@]);
            r
        },
    }
}

/// `s` with every occurrence of a non-empty `pat` removed, scanning left to
/// right (std's `str::replace(pat, "")`).
pub open spec fn remove_all_spec(s: Seq<char>, pat: Seq<char>) -> Seq<char>
    decreases s.len(),
{
    if pat.len() == 0 || s.len() == 0 {
        s
    } else if has_prefix(s, pat) {
        remove_all_spec(s.skip(pat.len() as int), pat)
    } else {
        seq![s[0]] + remove_all_spec(s.skip(1), pat)
    }
}

/// Remove every occurrence of a non-empty pattern.
pub fn remove_all(s: &str, pat: &str) -> (r: String)
    requires
        pat@.len() > 0,
    ensures
        r@ == remove_all_spec(s@, pat@),
{
    let v = chars_of(s);
    let p = chars_of(pat);
    let mut out = String::new();
    let mut i: usize = 0;
    while i < v.len()
        invariant
            i <= v@.len(),
            v@ == s@,
            p@ == pat@,
            p@.len() > 0,
            out@ + remove_all_spec(v@.skip(i as int), p@) == remove_all_spec(s@, p@),
        decreases v.len() - i,
    {
        let ghost rest = v@.skip(i as int);
        let n = v.len();
        let hit = if p.len() <= n - i {
            let mut k: usize = 0;
            let mut same = true;
            while k < p.len()
                invariant
                    k <= p@.len(),
                    i + p@.len() <= v@.len(),
                    n == v@.len(),
                    same == forall|j: int| 0 <= j < k ==> v@[i + j] == p@[j],
                decreases p.len() - k,
            {
                if v[i + k] != p[k] {
                    same = false;
                }
                k = k + 1;
            }
            same
        } else {
            false
        };
        proof {
            if hit {
                assert(rest.take(p@.len() as int) =~= p@);
            } else if p@.len() <= rest.len() {
                let w = choose|j: int| 0 <= j < p@.len() && v@[i + j] != p@[j];
                assert(rest.take(p@.len() as int)[w] != p@[w]);
            }
        }
        if hit {
            proof {
                assert(rest.skip(p@.len() as int) =~= v@.skip(i + p@.len()));
            }
            i = i + p.len();
        } else {
            let ghost before = out@;
            push_char(&mut out, v[i]);
            proof {
                assert(rest.skip(1) =~= v@.skip(i + 1));
                assert(out@ + remove_all_spec(v@.skip(i + 1), p@) =~= before + (seq![rest[0]]
                    + remove_all_spec(rest.skip(1), p@)));
            }
            i = i + 1;
        }
    }
    assert(v@.skip(v@.len() as int) =~= Seq::<char>::empty());
    assert(out@ + Seq::<char>::empty() =~= out@);
    out
}

} // verus!
