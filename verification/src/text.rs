//! Strings: building them, and the character properties that the standard library provides.

use vstd::prelude::*;
use vstd::string::StringExecFns;

verus! {

/// `String::push` appends the given character.
pub assume_specification[ String::push ](s: &mut String, c: char)
    ensures
        final(s)@ == old(s)@.push(c),
;

/// The decimal digit of a number below ten.
pub open spec fn digit(d: nat) -> char {
    (('0' as u32) + d) as char
}

/// A number in decimal, without leading zeros.
pub open spec fn digits(n: nat) -> Seq<char>
    decreases n,
{
    if n < 10 {
        seq![digit(n)]
    } else {
        digits(n / 10).push(digit(n % 10))
    }
}

/// A number in decimal.
pub fn decimal(n: usize) -> (r: String)
    ensures
        r@ == digits(n as nat),
    decreases n,
{
    let c: char = (48u8 + (n % 10) as u8) as char;
    if n < 10 {
        let mut s = String::new();
        s.push(c);
        s
    } else {
        let mut s = decimal(n / 10);
        s.push(c);
        s
    }
}

/// Two strings, one behind the other.
pub fn join(a: &str, b: &str) -> (r: String)
    ensures
        r@ == a@ + b@,
{
    let mut s = a.to_owned();
    s.append(b);
    s
}

/// Whether two strings are the same.
pub fn same(a: &String, b: &str) -> (r: bool)
    ensures
        r == (a@ == b@),
{
    *a == b.to_owned()
}

/// The characters of a string.
pub fn chars_of(s: &str) -> (r: Vec<char>)
    ensures
        r@ == s@,
{
    let mut out: Vec<char> = Vec::new();
    for c in it: s.chars()
        invariant
            out@.len() == it.index(),
            it.seq() == s@,
            forall|i: int| 0 <= i < out@.len() ==> out@[i] == it.seq()[i],
    {
        out.push(c);
    }
    assert(out@ =~= s@);
    out
}

/// A string of one character.
pub fn single(c: char) -> (r: String)
    ensures
        r@ == seq![c],
{
    let mut s = String::new();
    s.push(c);
    assert(s@ =~= seq![c]);
    s
}

/// The lowercase mapping of a character, which can be more than one character.
pub uninterp spec fn lowercase(c: char) -> Seq<char>;

/// `char::to_lowercase`, whose result depends on the character alone, as a string.
#[verifier::external_body]
pub(crate) fn to_lowercase(c: char) -> (r: String)
    ensures
        r@ == lowercase(c),
{
    c.to_lowercase().to_string()
}

/// Whether a character is white space: whether it has the Unicode property `White_Space`.
pub open spec fn white(c: char) -> bool {
    let n = c as u32;
    ||| 0x9 <= n <= 0xD
    ||| n == 0x20
    ||| n == 0x85
    ||| n == 0xA0
    ||| n == 0x1680
    ||| 0x2000 <= n <= 0x200A
    ||| n == 0x2028
    ||| n == 0x2029
    ||| n == 0x202F
    ||| n == 0x205F
    ||| n == 0x3000
}

/// `char::is_whitespace` tells whether a character has the Unicode property `White_Space`, which
/// the characters listed in [`white`] have and no others.
#[verifier::external_body]
pub(crate) fn is_whitespace(c: char) -> (r: bool)
    ensures
        r == white(c),
{
    c.is_whitespace()
}

/// A string without the white characters that it ends with.
pub open spec fn trimmed_end(s: Seq<char>) -> Seq<char>
    decreases s.len(),
{
    if s.len() > 0 && white(s.last()) {
        trimmed_end(s.drop_last())
    } else {
        s
    }
}

/// A string without the white characters that it begins with.
pub open spec fn trimmed_start(s: Seq<char>) -> Seq<char>
    decreases s.len(),
{
    if s.len() > 0 && white(s[0]) {
        trimmed_start(s.drop_first())
    } else {
        s
    }
}

/// A string without the white characters that it begins or ends with.
pub open spec fn trimmed(s: Seq<char>) -> Seq<char> {
    trimmed_end(trimmed_start(s))
}

/// A string of the given characters.
pub fn string_of(chars: &Vec<char>) -> (r: String)
    ensures
        r@ == chars@,
{
    let mut s = String::new();
    let mut i: usize = 0;
    while i < chars.len()
        invariant
            i <= chars@.len(),
            s@ == chars@.take(i as int),
        decreases chars@.len() - i,
    {
        s.push(chars[i]);
        i = i + 1;
        assert(s@ =~= chars@.take(i as int));
    }
    assert(chars@.take(i as int) =~= chars@);
    s
}

/// The characters without the white ones that they begin or end with.
pub fn trim(chars: &Vec<char>) -> (r: Vec<char>)
    ensures
        r@ == trimmed(chars@),
{
    let n = chars.len();
    let mut start: usize = 0;
    assert(chars@.skip(0) =~= chars@);
    while start < n && is_whitespace(chars[start])
        invariant
            n == chars@.len(),
            start <= n,
            trimmed_start(chars@) == trimmed_start(chars@.skip(start as int)),
        decreases n - start,
    {
        assert(chars@.skip(start as int).drop_first() =~= chars@.skip(start + 1));
        start = start + 1;
    }
    let ghost kept = chars@.skip(start as int);
    assert(trimmed_start(kept) == kept);
    let mut end: usize = n;
    assert(chars@.subrange(start as int, n as int) =~= kept);
    while end > start && is_whitespace(chars[end - 1])
        invariant
            n == chars@.len(),
            start <= end <= n,
            trimmed_end(kept) == trimmed_end(chars@.subrange(start as int, end as int)),
        decreases end,
    {
        assert(chars@.subrange(start as int, end as int).drop_last() =~= chars@.subrange(
            start as int,
            end - 1,
        ));
        end = end - 1;
    }
    let ghost inner = chars@.subrange(start as int, end as int);
    assert(trimmed_end(inner) == inner);
    let mut out: Vec<char> = Vec::new();
    let mut i: usize = start;
    while i < end
        invariant
            start <= i <= end <= chars@.len(),
            out@ == chars@.subrange(start as int, i as int),
        decreases end - i,
    {
        out.push(chars[i]);
        i = i + 1;
        assert(out@ =~= chars@.subrange(start as int, i as int));
    }
    out
}

/// Trimming leaves what is trimmed already as it is.
pub proof fn lemma_trim_twice(s: Seq<char>)
    ensures
        trimmed(trimmed(s)) == trimmed(s),
{
    let t = trimmed_start(s);
    lemma_start_kept(s);
    lemma_end_kept(t);
    let u = trimmed_end(t);
    assert(u.len() == 0 || !white(u[0])) by {
        if u.len() > 0 {
            assert(u[0] == t[0]);
        }
    }
}

proof fn lemma_start_kept(s: Seq<char>)
    ensures
        trimmed_start(s).len() == 0 || !white(trimmed_start(s)[0]),
    decreases s.len(),
{
    if s.len() > 0 && white(s[0]) {
        lemma_start_kept(s.drop_first());
    }
}

proof fn lemma_end_kept(s: Seq<char>)
    ensures
        trimmed_end(s).len() == 0 || !white(trimmed_end(s).last()),
        trimmed_end(s).len() <= s.len(),
        forall|i: int| 0 <= i < trimmed_end(s).len() ==> trimmed_end(s)[i] == s[i],
    decreases s.len(),
{
    if s.len() > 0 && white(s.last()) {
        let rest = s.drop_last();
        lemma_end_kept(rest);
        assert forall|i: int| 0 <= i < trimmed_end(s).len() implies trimmed_end(s)[i] == s[i] by {
            assert(trimmed_end(rest)[i] == rest[i]);
        }
    }
}

/// What is left by trimming is a part of the string.
pub proof fn lemma_trim_part(s: Seq<char>)
    ensures
        exists|a: int, b: int|
            0 <= a <= b <= s.len() && trimmed(s) == #[trigger] s.subrange(a, b),
{
    lemma_start_part(s);
    let t = trimmed_start(s);
    let a = s.len() - t.len();
    lemma_end_kept(t);
    assert(trimmed(s) =~= s.subrange(a, a + trimmed(s).len()));
}

proof fn lemma_start_part(s: Seq<char>)
    ensures
        trimmed_start(s).len() <= s.len(),
        trimmed_start(s) == s.skip(s.len() - trimmed_start(s).len()),
    decreases s.len(),
{
    if s.len() > 0 && white(s[0]) {
        lemma_start_part(s.drop_first());
        assert(trimmed_start(s) =~= s.skip(s.len() - trimmed_start(s).len()));
    } else {
        assert(s.skip(0) =~= s);
    }
}

/// The number that digits stand for.
pub open spec fn value_of(s: Seq<char>) -> int
    decreases s.len(),
{
    if s.len() == 0 {
        0
    } else {
        10 * value_of(s.drop_last()) + (s.last() as u32 - '0' as u32)
    }
}

/// The digits of a number stand for it, and the first of them is not zero unless it is the only
/// one.
pub proof fn lemma_digits(n: nat)
    ensures
        value_of(digits(n)) == n,
        digits(n).len() > 0,
        digits(n).len() > 1 ==> digits(n)[0] != '0',
        forall|k: int| 0 <= k < digits(n).len() ==> '0' <= #[trigger] digits(n)[k] <= '9',
    decreases n,
{
    if n < 10 {
        let s = digits(n);
        assert(s.drop_last() =~= Seq::<char>::empty());
        assert(value_of(s.drop_last()) == 0);
    } else {
        lemma_digits(n / 10);
        let front = digits(n / 10);
        let s = digits(n);
        assert(s.drop_last() =~= front);
        assert(s[0] == front[0]);
        if front.len() == 1 {
            assert(value_of(front.drop_last()) == 0) by {
                assert(front.drop_last() =~= Seq::<char>::empty());
            }
        }
    }
}

/// Trimming takes away white characters at the ends, and nothing else.
pub proof fn lemma_trim_takes_white(s: Seq<char>) -> (ends: (int, int))
    ensures
        0 <= ends.0 <= ends.1 <= s.len(),
        trimmed(s) == s.subrange(ends.0, ends.1),
        forall|k: int| 0 <= k < ends.0 ==> white(#[trigger] s[k]),
        forall|k: int| ends.1 <= k < s.len() ==> white(#[trigger] s[k]),
        trimmed(s).len() > 0 ==> !white(trimmed(s)[0]) && !white(trimmed(s).last()),
{
    lemma_start_part(s);
    lemma_start_kept(s);
    lemma_start_white(s);
    let t = trimmed_start(s);
    let a = s.len() - t.len();
    lemma_end_kept(t);
    lemma_end_white(t);
    let u = trimmed_end(t);
    let b = a + u.len();
    assert(u =~= s.subrange(a, b));
    assert forall|k: int| b <= k < s.len() implies white(#[trigger] s[k]) by {
        assert(t[k - a] == s[k]);
    }
    (a, b)
}

proof fn lemma_start_white(s: Seq<char>)
    ensures
        trimmed_start(s).len() <= s.len(),
        forall|k: int| 0 <= k < s.len() - trimmed_start(s).len() ==> white(#[trigger] s[k]),
    decreases s.len(),
{
    if s.len() > 0 && white(s[0]) {
        let rest = s.drop_first();
        lemma_start_white(rest);
        assert forall|k: int| 0 <= k < s.len() - trimmed_start(s).len() implies white(
            #[trigger] s[k],
        ) by {
            if k > 0 {
                assert(rest[k - 1] == s[k]);
            }
        }
    }
}

proof fn lemma_end_white(s: Seq<char>)
    ensures
        trimmed_end(s).len() <= s.len(),
        forall|k: int| trimmed_end(s).len() <= k < s.len() ==> white(#[trigger] s[k]),
    decreases s.len(),
{
    if s.len() > 0 && white(s.last()) {
        let rest = s.drop_last();
        lemma_end_white(rest);
        assert forall|k: int| trimmed_end(s).len() <= k < s.len() implies white(
            #[trigger] s[k],
        ) by {
            if k < rest.len() {
                assert(rest[k] == s[k]);
            }
        }
    }
}

} // verus!
