use vstd::prelude::*;

verus! {

/// The characters of `s`, in order.
pub fn chars_of(s: &str) -> (v: Vec<char>)
    ensures
        v@ == s@,
{
    let mut v: Vec<char> = Vec::new();
    for c in it: s.chars()
        invariant
            v@ == it.seq().take(it.index() as int),
            it.seq() == s@,
    {
        v.push(c);
    }
    v
}

/// Appends one character to a `String` (std's `String::push`).
#[verifier::external_body]
fn push_char(s: &mut String, c: char)
    ensures
        final(s)@ == old(s)@.push(c),
{
    s.push(c);
}

/// The `String` made of the characters of `v`, in order.
pub fn string_of(v: &Vec<char>) -> (s: String)
    ensures
        s@ == v@,
{
    let mut s = String::new();
    let mut i: usize = 0;
    while i < v.len()
        invariant
            i <= v.len(),
            s@ == v@.take(i as int),
        decreases v.len() - i,
    {
        push_char(&mut s, v[i]);
        i += 1;
        assert(v@.take(i as int) =~= v@.take(i - 1).push(v@[i - 1]));
    }
    assert(v@.take(v.len() as int) =~= v@);
    s
}

}

verus! {

/// Whether two strings hold the same characters.
pub fn str_eq(a: &str, b: &str) -> (r: bool)
    ensures
        r == (a@ == b@),
{
    let x = chars_of(a);
    let y = chars_of(b);
    if x.len() != y.len() {
        return false;
    }
    let mut i: usize = 0;
    while i < x.len()
        invariant
            x@ == a@,
            y@ == b@,
            x.len() == y.len(),
            i <= x.len(),
            forall|j: int| 0 <= j < i ==> x@[j] == y@[j],
        decreases x.len() - i,
    {
        if x[i] != y[i] {
            return false;
        }
        i += 1;
    }
    assert(x@ =~= y@);
    true
}

}

verus! {

/// The characters with Unicode's White_Space property, which std's
/// `char::is_whitespace` answers for.
pub open spec fn white_space(c: char) -> bool {
    let u = c as u32;
    ||| 0x09 <= u <= 0x0D
    ||| u == 0x20 || u == 0x85 || u == 0xA0 || u == 0x1680
    ||| 0x2000 <= u <= 0x200A
    ||| u == 0x2028 || u == 0x2029 || u == 0x202F || u == 0x205F || u == 0x3000
}

/// std's `char::is_whitespace`: whether `c` has the White_Space property.
#[verifier::external_body]
pub(crate) fn is_whitespace(c: char) -> (b: bool)
    ensures
        b == white_space(c),
{
    c.is_whitespace()
}

/// First index at or after `i` whose character is not white space.
pub open spec fn trim_lo(s: Seq<char>, i: int) -> int
    decreases s.len() - i,
{
    if 0 <= i < s.len() && white_space(s[i]) {
        trim_lo(s, i + 1)
    } else {
        i
    }
}

/// End of `s[..j]` without its trailing white space.
pub open spec fn trim_hi(s: Seq<char>, j: int) -> int
    decreases j,
{
    if 0 < j <= s.len() && white_space(s[j - 1]) {
        trim_hi(s, j - 1)
    } else {
        j
    }
}

/// `s` without leading and trailing white space (std's `str::trim`).
pub open spec fn trim_spec(s: Seq<char>) -> Seq<char> {
    let lo = trim_lo(s, 0);
    let hi = trim_hi(s, s.len() as int);
    if lo < hi {
        s.subrange(lo, hi)
    } else {
        Seq::empty()
    }
}

pub proof fn lemma_trim_lo(s: Seq<char>, i: int)
    requires
        0 <= i <= s.len(),
    ensures
        i <= trim_lo(s, i) <= s.len(),
    decreases s.len() - i,
{
    if i < s.len() && white_space(s[i]) {
        lemma_trim_lo(s, i + 1);
    }
}

pub proof fn lemma_trim_hi(s: Seq<char>, j: int)
    requires
        0 <= j <= s.len(),
    ensures
        0 <= trim_hi(s, j) <= j,
    decreases j,
{
    if 0 < j && white_space(s[j - 1]) {
        lemma_trim_hi(s, j - 1);
    }
}

/// `s[a..b]` as a `Vec`.
pub fn sub_vec(s: &Vec<char>, a: usize, b: usize) -> (v: Vec<char>)
    requires
        a <= b <= s.len(),
    ensures
        v@ == s@.subrange(a as int, b as int),
{
    let mut v: Vec<char> = Vec::new();
    let mut k = a;
    while k < b
        invariant
            a <= k <= b <= s.len(),
            v@ == s@.subrange(a as int, k as int),
        decreases b - k,
    {
        v.push(s[k]);
        k += 1;
        assert(v@ =~= s@.subrange(a as int, k as int));
    }
    v
}

/// `s` without leading and trailing white space.
pub fn trim_chars(s: &Vec<char>) -> (t: Vec<char>)
    ensures
        t@ == trim_spec(s@),
{
    let n = s.len();
    let mut lo: usize = 0;
    while lo < n && is_whitespace(s[lo])
        invariant
            lo <= n,
            n == s@.len(),
            trim_lo(s@, lo as int) == trim_lo(s@, 0),
        decreases n - lo,
    {
        lo += 1;
    }
    let mut hi: usize = n;
    while hi > 0 && is_whitespace(s[hi - 1])
        invariant
            hi <= n,
            n == s@.len(),
            trim_hi(s@, hi as int) == trim_hi(s@, n as int),
        decreases hi,
    {
        hi -= 1;
    }
    if lo < hi {
        sub_vec(s, lo, hi)
    } else {
        Vec::new()
    }
}

/// Whether `a` and `b` hold the same characters.
pub fn vec_eq(a: &Vec<char>, b: &Vec<char>) -> (r: bool)
    ensures
        r == (a@ == b@),
{
    if a.len() != b.len() {
        return false;
    }
    let mut i: usize = 0;
    while i < a.len()
        invariant
            a.len() == b.len(),
            i <= a.len(),
            forall|j: int| 0 <= j < i ==> a@[j] == b@[j],
        decreases a.len() - i,
    {
        if a[i] != b[i] {
            return false;
        }
        i += 1;
    }
    assert(a@ =~= b@);
    true
}

}

verus! {

/// Decimal text of a natural number.
pub open spec fn dec_spec(n: nat) -> Seq<char>
    decreases n,
{
    if n < 10 {
        seq![(n + '0' as nat) as char]
    } else {
        dec_spec(n / 10) + seq![((n % 10) + '0' as nat) as char]
    }
}

fn digit_char(d: u64) -> (c: char)
    requires
        d < 10,
    ensures
        c == (d + '0' as nat) as char,
{
    ((d as u8) + ('0' as u8)) as char
}

/// Decimal text of `n`.
pub fn dec(n: u64) -> (s: String)
    ensures
        s@ == dec_spec(n as nat),
    decreases n,
{
    if n < 10 {
        let mut v: Vec<char> = Vec::new();
        v.push(digit_char(n));
        assert(v@ =~= dec_spec(n as nat));
        string_of(&v)
    } else {
        let mut s = dec(n / 10);
        let mut v: Vec<char> = Vec::new();
        v.push(digit_char(n % 10));
        let t = string_of(&v);
        s.append(t.as_str());
        assert(s@ =~= dec_spec(n as nat));
        s
    }
}

}
