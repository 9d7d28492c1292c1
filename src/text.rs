//! Character-level helpers shared by the path model.

use vstd::prelude::*;
use vstd::string::*;

verus! {

/// The characters that carry Unicode's White_Space property.
pub open spec fn is_white_space(c: char) -> bool {
    let u = c as u32;
    ||| 0x09 <= u <= 0x0D
    ||| u == 0x20
    ||| u == 0x85
    ||| u == 0xA0
    ||| u == 0x1680
    ||| 0x2000 <= u <= 0x200A
    ||| u == 0x2028
    ||| u == 0x2029
    ||| u == 0x202F
    ||| u == 0x205F
    ||| u == 0x3000
}

/// `s` with its leading white space removed.
pub open spec fn trim_front(s: Seq<char>) -> Seq<char>
    decreases s.len(),
{
    if s.len() > 0 && is_white_space(s[0]) {
        trim_front(s.drop_first())
    } else {
        s
    }
}

/// `s` with its trailing white space removed.
pub open spec fn trim_back(s: Seq<char>) -> Seq<char>
    decreases s.len(),
{
    if s.len() > 0 && is_white_space(s.last()) {
        trim_back(s.drop_last())
    } else {
        s
    }
}

/// `s` with white space removed from both ends.
pub open spec fn trimmed(s: Seq<char>) -> Seq<char> {
    trim_back(trim_front(s))
}

/// Whether `c` carries the White_Space property.
pub fn white_space(c: char) -> (r: bool)
    ensures
        r == is_white_space(c),
{
    let u = c as u32;
    (0x09 <= u && u <= 0x0D) || u == 0x20 || u == 0x85 || u == 0xA0 || u == 0x1680 || (0x2000
        <= u && u <= 0x200A) || u == 0x2028 || u == 0x2029 || u == 0x202F || u == 0x205F || u
        == 0x3000
}

/// The characters of `s`, one element each.
pub fn chars_of(s: &str) -> (r: Vec<char>)
    ensures
        r@ == s@,
{
    let n = s.unicode_len();
    let mut r: Vec<char> = Vec::new();
    let mut i: usize = 0;
    while i < n
        invariant
            n == s@.len(),
            i <= n,
            r@ == s@.subrange(0, i as int),
        decreases n - i,
    {
        r.push(s.get_char(i));
        i = i + 1;
    }
    r
}

/// Leading white space is dropped one character at a time.
proof fn lemma_trim_front_from(s: Seq<char>, i: int)
    requires
        0 <= i < s.len(),
        is_white_space(s[i]),
    ensures
        trim_front(s.subrange(i, s.len() as int)) == trim_front(s.subrange(i + 1, s.len() as int)),
{
    assert(s.subrange(i, s.len() as int).drop_first() =~= s.subrange(i + 1, s.len() as int));
}

/// Trailing white space is dropped one character at a time.
proof fn lemma_trim_back_to(s: Seq<char>, a: int, j: int)
    requires
        0 <= a < j <= s.len(),
        is_white_space(s[j - 1]),
    ensures
        trim_back(s.subrange(a, j)) == trim_back(s.subrange(a, j - 1)),
{
    assert(s.subrange(a, j).drop_last() =~= s.subrange(a, j - 1));
}

/// `s` without the white space at either end.
pub fn trim(s: &str) -> (r: &str)
    ensures
        r@ == trimmed(s@),
{
    let n = s.unicode_len();
    let mut a: usize = 0;
    assert(s@.subrange(0, n as int) =~= s@);
    while a < n && white_space(s.get_char(a))
        invariant
            n == s@.len(),
            a <= n,
            trim_front(s@) == trim_front(s@.subrange(a as int, n as int)),
        decreases n - a,
    {
        proof {
            lemma_trim_front_from(s@, a as int);
        }
        a = a + 1;
    }
    assert(trim_front(s@) == s@.subrange(a as int, n as int));
    let mut b: usize = n;
    while b > a && white_space(s.get_char(b - 1))
        invariant
            n == s@.len(),
            a <= b <= n,
            trimmed(s@) == trim_back(s@.subrange(a as int, b as int)),
        decreases b,
    {
        proof {
            lemma_trim_back_to(s@, a as int, b as int);
        }
        b = b - 1;
    }
    proof {
        let t = s@.subrange(a as int, b as int);
        if t.len() > 0 {
            assert(t.last() == s@[b - 1]);
        }
    }
    s.substring_char(a, b)
}

/// The trimmed text is a stretch of the original, with only white space cut
/// away on either side.
pub proof fn lemma_trimmed_is_slice(s: Seq<char>) -> (ab: (int, int))
    ensures
        0 <= ab.0 <= ab.1 <= s.len(),
        trimmed(s) == s.subrange(ab.0, ab.1),
        forall|i: int| 0 <= i < ab.0 ==> is_white_space(#[trigger] s[i]),
        forall|i: int| ab.1 <= i < s.len() ==> is_white_space(#[trigger] s[i]),
        ab.0 < ab.1 ==> !is_white_space(s[ab.0]) && !is_white_space(s[ab.1 - 1]),
{
    let a = lemma_front_is_suffix(s);
    let b = lemma_back_is_prefix(s.subrange(a, s.len() as int));
    assert(s.subrange(a, s.len() as int).subrange(0, b) =~= s.subrange(a, a + b));
    assert forall|i: int| a + b <= i < s.len() implies is_white_space(#[trigger] s[i]) by {
        assert(s[i] == s.subrange(a, s.len() as int)[i - a]);
    }
    (a, a + b)
}

proof fn lemma_front_is_suffix(s: Seq<char>) -> (a: int)
    ensures
        0 <= a <= s.len(),
        trim_front(s) == s.subrange(a, s.len() as int),
        forall|i: int| 0 <= i < a ==> is_white_space(#[trigger] s[i]),
        a < s.len() ==> !is_white_space(s[a]),
    decreases s.len(),
{
    if s.len() > 0 && is_white_space(s[0]) {
        let a0 = lemma_front_is_suffix(s.drop_first());
        assert(s.drop_first().subrange(a0, s.drop_first().len() as int) =~= s.subrange(
            a0 + 1,
            s.len() as int,
        ));
        assert forall|i: int| 0 <= i < a0 + 1 implies is_white_space(#[trigger] s[i]) by {
            if i > 0 {
                assert(s[i] == s.drop_first()[i - 1]);
            }
        }
        a0 + 1
    } else {
        assert(s.subrange(0, s.len() as int) =~= s);
        0
    }
}

proof fn lemma_back_is_prefix(s: Seq<char>) -> (b: int)
    ensures
        0 <= b <= s.len(),
        trim_back(s) == s.subrange(0, b),
        forall|i: int| b <= i < s.len() ==> is_white_space(#[trigger] s[i]),
        b > 0 ==> !is_white_space(s[b - 1]),
    decreases s.len(),
{
    if s.len() > 0 && is_white_space(s.last()) {
        let b0 = lemma_back_is_prefix(s.drop_last());
        assert(s.drop_last().subrange(0, b0) =~= s.subrange(0, b0));
        assert forall|i: int| b0 <= i < s.len() implies is_white_space(#[trigger] s[i]) by {
            if i < s.len() - 1 {
                assert(s[i] == s.drop_last()[i]);
            }
        }
        b0
    } else {
        assert(s.subrange(0, s.len() as int) =~= s);
        s.len() as int
    }
}

} // verus!
