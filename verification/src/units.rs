use vstd::prelude::*;
use crate::ast::{is_alphabetic, alphabetic};
use crate::text::{chars_of, string_of, trim_chars, trim_spec, vec_eq};

verus! {

// ───────────────────────────── Dimension vectors ─────────────────────────────

/// Exponents of the SI base dimensions `[m, kg, s, A, K, mol, cd]`.
#[derive(Clone, Copy, Debug)]
pub struct Dim(pub [i8; 7]);

impl PartialEq for Dim {
    fn eq(&self, other: &Dim) -> (r: bool) {
        let mut i: usize = 0;
        while i < 7
            invariant
                i <= 7,
                forall|j: int| 0 <= j < i ==> self.0@[j] == other.0@[j],
            decreases 7 - i,
        {
            if self.0[i] != other.0[i] {
                return false;
            }
            i += 1;
        }
        assert(self.0@ =~= other.0@);
        true
    }
}

impl vstd::std_specs::cmp::PartialEqSpecImpl for Dim {
    open spec fn obeys_eq_spec() -> bool {
        true
    }

    open spec fn eq_spec(&self, other: &Dim) -> bool {
        self.0@ == other.0@
    }
}

impl View for Dim {
    type V = Seq<i8>;

    open spec fn view(&self) -> Seq<i8> {
        self.0@
    }
}

/// A dimension vector given by its seven exponents.
pub open spec fn dims7(a: int, b: int, c: int, d: int, e: int, f: int, g: int) -> Seq<i8> {
    seq![a as i8, b as i8, c as i8, d as i8, e as i8, f as i8, g as i8]
}

/// The dimensionless vector.
pub open spec fn dims_none() -> Seq<i8> {
    dims7(0, 0, 0, 0, 0, 0, 0)
}

/// Exponent-wise sum.
pub open spec fn sum_dims(a: Seq<i8>, b: Seq<i8>) -> Seq<i8> {
    Seq::new(7, |i: int| (a[i] + b[i]) as i8)
}

/// Exponent-wise difference.
pub open spec fn diff_dims(a: Seq<i8>, b: Seq<i8>) -> Seq<i8> {
    Seq::new(7, |i: int| (a[i] - b[i]) as i8)
}

/// Exponents times `n`, each truncated to eight bits.
pub open spec fn scale_dims(a: Seq<i8>, n: int) -> Seq<i8> {
    Seq::new(7, |i: int| (a[i] * n) as i8)
}

/// The sums fit in `i8`.
pub open spec fn sum_fits(a: Seq<i8>, b: Seq<i8>) -> bool {
    forall|i: int| 0 <= i < 7 ==> i8::MIN <= #[trigger] a[i] + b[i] <= i8::MAX
}

/// The differences fit in `i8`.
pub open spec fn diff_fits(a: Seq<i8>, b: Seq<i8>) -> bool {
    forall|i: int| 0 <= i < 7 ==> i8::MIN <= #[trigger] a[i] - b[i] <= i8::MAX
}

/// The products with `n` fit in `i32`.
pub open spec fn scale_fits(a: Seq<i8>, n: int) -> bool {
    forall|i: int| 0 <= i < 7 ==> i32::MIN <= #[trigger] a[i] * n <= i32::MAX
}

impl Dim {
    /// The dimensionless vector.
    pub fn none() -> (d: Dim)
        ensures
            d@ == dims_none(),
    {
        Dim([0, 0, 0, 0, 0, 0, 0])
    }

    /// Length.
    pub fn m() -> (d: Dim)
        ensures
            d@ == dims7(1, 0, 0, 0, 0, 0, 0),
    {
        Dim([1, 0, 0, 0, 0, 0, 0])
    }

    /// Mass.
    pub fn kg() -> (d: Dim)
        ensures
            d@ == dims7(0, 1, 0, 0, 0, 0, 0),
    {
        Dim([0, 1, 0, 0, 0, 0, 0])
    }

    /// Time.
    pub fn s() -> (d: Dim)
        ensures
            d@ == dims7(0, 0, 1, 0, 0, 0, 0),
    {
        Dim([0, 0, 1, 0, 0, 0, 0])
    }

    /// Force, kg·m/s².
    pub fn n() -> (d: Dim)
        ensures
            d@ == dims7(1, 1, -2, 0, 0, 0, 0),
    {
        Dim([1, 1, -2, 0, 0, 0, 0])
    }

    /// Pressure, N/m².
    pub fn pa() -> (d: Dim)
        ensures
            d@ == dims7(-1, 1, -2, 0, 0, 0, 0),
    {
        Dim([-1, 1, -2, 0, 0, 0, 0])
    }

    /// Energy or moment, N·m.
    pub fn j() -> (d: Dim)
        ensures
            d@ == dims7(2, 1, -2, 0, 0, 0, 0),
    {
        Dim([2, 1, -2, 0, 0, 0, 0])
    }

    /// Area.
    pub fn m2() -> (d: Dim)
        ensures
            d@ == dims7(2, 0, 0, 0, 0, 0, 0),
    {
        Dim([2, 0, 0, 0, 0, 0, 0])
    }

    /// Volume.
    pub fn m3() -> (d: Dim)
        ensures
            d@ == dims7(3, 0, 0, 0, 0, 0, 0),
    {
        Dim([3, 0, 0, 0, 0, 0, 0])
    }

    /// Second moment of area.
    pub fn m4() -> (d: Dim)
        ensures
            d@ == dims7(4, 0, 0, 0, 0, 0, 0),
    {
        Dim([4, 0, 0, 0, 0, 0, 0])
    }

    /// Exponent-wise sum: the dimension of a product.
    pub fn mul(self, rhs: Dim) -> (d: Dim)
        requires
            sum_fits(self@, rhs@),
        ensures
            d@ == sum_dims(self@, rhs@),
    {
        let mut d = [0i8; 7];
        let mut i: usize = 0;
        while i < 7
            invariant
                i <= 7,
                d@.len() == 7,
                sum_fits(self@, rhs@),
                forall|j: int| 0 <= j < i ==> #[trigger] d@[j] == (self@[j] + rhs@[j]) as i8,
            decreases 7 - i,
        {
            d[i] = self.0[i] + rhs.0[i];
            i += 1;
        }
        assert(d@ =~= sum_dims(self@, rhs@));
        Dim(d)
    }

    /// Exponent-wise difference: the dimension of a quotient.
    pub fn div(self, rhs: Dim) -> (d: Dim)
        requires
            diff_fits(self@, rhs@),
        ensures
            d@ == diff_dims(self@, rhs@),
    {
        let mut d = [0i8; 7];
        let mut i: usize = 0;
        while i < 7
            invariant
                i <= 7,
                d@.len() == 7,
                diff_fits(self@, rhs@),
                forall|j: int| 0 <= j < i ==> #[trigger] d@[j] == (self@[j] - rhs@[j]) as i8,
            decreases 7 - i,
        {
            d[i] = self.0[i] - rhs.0[i];
            i += 1;
        }
        assert(d@ =~= diff_dims(self@, rhs@));
        Dim(d)
    }

    /// Exponents times `n` (the dimension of an integer power), each taken
    /// modulo 2⁸ into `i8`.
    pub fn pow_int(self, n: i32) -> (d: Dim)
        requires
            scale_fits(self@, n as int),
        ensures
            d@ == scale_dims(self@, n as int),
    {
        let mut d = [0i8; 7];
        let mut i: usize = 0;
        while i < 7
            invariant
                i <= 7,
                d@.len() == 7,
                scale_fits(self@, n as int),
                forall|j: int| 0 <= j < i ==> #[trigger] d@[j] == (self@[j] * n) as i8,
            decreases 7 - i,
        {
            d[i] = (self.0[i] as i32 * n) as i8;
            i += 1;
        }
        assert(d@ =~= scale_dims(self@, n as int));
        Dim(d)
    }

    /// Whether every exponent is zero.
    pub fn is_dimensionless(self) -> (b: bool)
        ensures
            b == (self@ == dims_none()),
    {
        self == Dim::none()
    }
}

// ───────────────────────────── Laws of dimension vectors ─────────────────────────────

/// Multiplying by `b` and dividing by `b` again gives back `a`.
pub proof fn law_mul_div_cancel(a: Seq<i8>, b: Seq<i8>)
    requires
        a.len() == 7,
        b.len() == 7,
        sum_fits(a, b),
    ensures
        diff_fits(sum_dims(a, b), b),
        diff_dims(sum_dims(a, b), b) == a,
{
    assert(diff_dims(sum_dims(a, b), b) =~= a);
}

/// The dimension of a product does not depend on the order of the factors.
pub proof fn law_mul_commutes(a: Seq<i8>, b: Seq<i8>)
    ensures
        sum_dims(a, b) == sum_dims(b, a),
{
    assert(sum_dims(a, b) =~= sum_dims(b, a));
}

/// The first power keeps a dimension; the zeroth power is dimensionless.
pub proof fn law_pow_one_zero(a: Seq<i8>)
    requires
        a.len() == 7,
    ensures
        scale_dims(a, 1) == a,
        scale_dims(a, 0) == dims_none(),
{
    assert(scale_dims(a, 1) =~= a);
    assert(scale_dims(a, 0) =~= dims_none());
}

/// Squaring a dimension doubles it, as multiplying it by itself does.
pub proof fn law_pow_two_is_square(a: Seq<i8>)
    requires
        a.len() == 7,
        sum_fits(a, a),
    ensures
        scale_dims(a, 2) == sum_dims(a, a),
{
    assert(scale_dims(a, 2) =~= sum_dims(a, a));
}

}

verus! {

// ───────────────────────────── SI multipliers ─────────────────────────────

/// An SI multiplier `num / den`, times π when `times_pi`.
#[derive(Clone, Copy, Debug, PartialEq, Eq, Structural)]
pub struct Scale {
    pub num: u64,
    pub den: u64,
    pub times_pi: bool,
}

pub open spec fn sc(num: u64, den: u64) -> Scale {
    Scale { num, den, times_pi: false }
}

fn mk_scale(num: u64, den: u64) -> (s: Scale)
    ensures
        s == sc(num, den),
{
    Scale { num, den, times_pi: false }
}

// ───────────────────────────── Base unit atoms ─────────────────────────────

/// Entry of a unit table: symbol, dimension, SI multiplier.
pub type SUnit = (Seq<char>, Seq<i8>, Scale);

/// The base unit atoms, in lookup order.
pub open spec fn atom_table() -> Seq<SUnit> {
    seq![
        ("mm"@, dims7(1, 0, 0, 0, 0, 0, 0), sc(1, 1000)),
        ("cm"@, dims7(1, 0, 0, 0, 0, 0, 0), sc(1, 100)),
        ("m"@, dims7(1, 0, 0, 0, 0, 0, 0), sc(1, 1)),
        ("km"@, dims7(1, 0, 0, 0, 0, 0, 0), sc(1000, 1)),
        ("in"@, dims7(1, 0, 0, 0, 0, 0, 0), sc(254, 10000)),
        ("ft"@, dims7(1, 0, 0, 0, 0, 0, 0), sc(3048, 10000)),
        ("g"@, dims7(0, 1, 0, 0, 0, 0, 0), sc(1, 1000)),
        ("kg"@, dims7(0, 1, 0, 0, 0, 0, 0), sc(1, 1)),
        ("t"@, dims7(0, 1, 0, 0, 0, 0, 0), sc(1000, 1)),
        ("ms"@, dims7(0, 0, 1, 0, 0, 0, 0), sc(1, 1000)),
        ("s"@, dims7(0, 0, 1, 0, 0, 0, 0), sc(1, 1)),
        ("min"@, dims7(0, 0, 1, 0, 0, 0, 0), sc(60, 1)),
        ("hr"@, dims7(0, 0, 1, 0, 0, 0, 0), sc(3600, 1)),
        ("N"@, dims7(1, 1, -2, 0, 0, 0, 0), sc(1, 1)),
        ("kN"@, dims7(1, 1, -2, 0, 0, 0, 0), sc(1000, 1)),
        ("MN"@, dims7(1, 1, -2, 0, 0, 0, 0), sc(1000000, 1)),
        ("lbf"@, dims7(1, 1, -2, 0, 0, 0, 0), sc(4448222, 1000000)),
        ("kip"@, dims7(1, 1, -2, 0, 0, 0, 0), sc(4448222, 1000)),
        ("Pa"@, dims7(-1, 1, -2, 0, 0, 0, 0), sc(1, 1)),
        ("kPa"@, dims7(-1, 1, -2, 0, 0, 0, 0), sc(1000, 1)),
        ("MPa"@, dims7(-1, 1, -2, 0, 0, 0, 0), sc(1000000, 1)),
        ("GPa"@, dims7(-1, 1, -2, 0, 0, 0, 0), sc(1000000000, 1)),
        ("psi"@, dims7(-1, 1, -2, 0, 0, 0, 0), sc(6894757, 1000)),
        ("ksi"@, dims7(-1, 1, -2, 0, 0, 0, 0), sc(6895000, 1)),
        ("J"@, dims7(2, 1, -2, 0, 0, 0, 0), sc(1, 1)),
        ("kJ"@, dims7(2, 1, -2, 0, 0, 0, 0), sc(1000, 1)),
        ("MJ"@, dims7(2, 1, -2, 0, 0, 0, 0), sc(1000000, 1)),
        ("%"@, dims7(0, 0, 0, 0, 0, 0, 0), sc(1, 1)),
        ("rad"@, dims7(0, 0, 0, 0, 0, 0, 0), sc(1, 1)),
        ("deg"@, dims7(0, 0, 0, 0, 0, 0, 0), Scale { num: 1, den: 180, times_pi: true }),
    ]
}

/// The model of an exec table entry.
pub open spec fn unit_view(e: (&str, Dim, Scale)) -> SUnit {
    (e.0@, e.1@, e.2)
}

/// The base unit atoms: symbol, dimension and SI multiplier of each.
pub fn base_unit_atoms() -> (v: Vec<(&'static str, Dim, Scale)>)
    ensures
        v@.map_values(|e: (&'static str, Dim, Scale)| unit_view(e)) == atom_table(),
{
    let mut v: Vec<(&'static str, Dim, Scale)> = Vec::new();
    v.push(("mm", Dim::m(), mk_scale(1, 1000)));
    v.push(("cm", Dim::m(), mk_scale(1, 100)));
    v.push(("m", Dim::m(), mk_scale(1, 1)));
    v.push(("km", Dim::m(), mk_scale(1000, 1)));
    v.push(("in", Dim::m(), mk_scale(254, 10000)));
    v.push(("ft", Dim::m(), mk_scale(3048, 10000)));
    v.push(("g", Dim::kg(), mk_scale(1, 1000)));
    v.push(("kg", Dim::kg(), mk_scale(1, 1)));
    v.push(("t", Dim::kg(), mk_scale(1000, 1)));
    v.push(("ms", Dim::s(), mk_scale(1, 1000)));
    v.push(("s", Dim::s(), mk_scale(1, 1)));
    v.push(("min", Dim::s(), mk_scale(60, 1)));
    v.push(("hr", Dim::s(), mk_scale(3600, 1)));
    v.push(("N", Dim::n(), mk_scale(1, 1)));
    v.push(("kN", Dim::n(), mk_scale(1000, 1)));
    v.push(("MN", Dim::n(), mk_scale(1000000, 1)));
    v.push(("lbf", Dim::n(), mk_scale(4448222, 1000000)));
    v.push(("kip", Dim::n(), mk_scale(4448222, 1000)));
    v.push(("Pa", Dim::pa(), mk_scale(1, 1)));
    v.push(("kPa", Dim::pa(), mk_scale(1000, 1)));
    v.push(("MPa", Dim::pa(), mk_scale(1000000, 1)));
    v.push(("GPa", Dim::pa(), mk_scale(1000000000, 1)));
    v.push(("psi", Dim::pa(), mk_scale(6894757, 1000)));
    v.push(("ksi", Dim::pa(), mk_scale(6895000, 1)));
    v.push(("J", Dim::j(), mk_scale(1, 1)));
    v.push(("kJ", Dim::j(), mk_scale(1000, 1)));
    v.push(("MJ", Dim::j(), mk_scale(1000000, 1)));
    v.push(("%", Dim::none(), mk_scale(1, 1)));
    v.push(("rad", Dim::none(), mk_scale(1, 1)));
    v.push(("deg", Dim::none(), Scale { num: 1, den: 180, times_pi: true }));
    assert(v@.map_values(|e: (&'static str, Dim, Scale)| unit_view(e)) =~= atom_table());
    v
}

}

verus! {

// ───────────────────────────── Atom lookup ─────────────────────────────

/// Index of the first entry of `t` at or after `i` whose symbol is `name`.
pub open spec fn find_unit_from(t: Seq<SUnit>, name: Seq<char>, i: int) -> Option<int>
    decreases t.len() - i,
{
    if i < 0 || i >= t.len() {
        None
    } else if t[i].0 == name {
        Some(i)
    } else {
        find_unit_from(t, name, i + 1)
    }
}

/// Index of the base unit atom whose symbol is `name`.
pub open spec fn find_atom(name: Seq<char>) -> Option<int> {
    find_unit_from(atom_table(), name, 0)
}

pub proof fn lemma_find_unit_from(t: Seq<SUnit>, name: Seq<char>, i: int)
    requires
        0 <= i,
    ensures
        find_unit_from(t, name, i) matches Some(k) ==> i <= k < t.len() && t[k].0 == name,
    decreases t.len() - i,
{
    if i < t.len() && t[i].0 != name {
        lemma_find_unit_from(t, name, i + 1);
    }
}

/// Index of the base unit atom named `name`, if any.
fn lookup_atom(atoms: &Vec<(&'static str, Dim, Scale)>, name: &Vec<char>) -> (r: Option<usize>)
    requires
        atoms@.map_values(|e: (&'static str, Dim, Scale)| unit_view(e)) == atom_table(),
    ensures
        match find_atom(name@) {
            Some(k) => r == Some(k as usize),
            None => r is None,
        },
{
    let ghost t = atom_table();
    let mut i: usize = 0;
    while i < atoms.len()
        invariant
            i <= atoms.len(),
            atoms@.map_values(|e: (&'static str, Dim, Scale)| unit_view(e)) == t,
            t == atom_table(),
            find_unit_from(t, name@, i as int) == find_unit_from(t, name@, 0),
        decreases atoms.len() - i,
    {
        let c = chars_of(atoms[i].0);
        assert(t[i as int] == unit_view(atoms@[i as int]));
        if vec_eq(&c, name) {
            return Some(i);
        }
        i += 1;
    }
    None
}

// ───────────────────────────── Unit exponents ─────────────────────────────

pub open spec fn is_digit_char(c: char) -> bool {
    '0' <= c <= '9'
}

/// End of the run of ASCII digits starting at `j`.
pub open spec fn digits_end(s: Seq<char>, j: int) -> int
    decreases s.len() - j,
{
    if 0 <= j < s.len() && is_digit_char(s[j]) {
        digits_end(s, j + 1)
    } else {
        j
    }
}

/// The digit that a superscript digit stands for.
pub open spec fn sup_digit(c: char) -> Option<char> {
    if c == '\u{2070}' {
        Some('0')
    } else if c == '\u{00B9}' {
        Some('1')
    } else if c == '\u{00B2}' {
        Some('2')
    } else if c == '\u{00B3}' {
        Some('3')
    } else if c == '\u{2074}' {
        Some('4')
    } else if c == '\u{2075}' {
        Some('5')
    } else if c == '\u{2076}' {
        Some('6')
    } else if c == '\u{2077}' {
        Some('7')
    } else if c == '\u{2078}' {
        Some('8')
    } else if c == '\u{2079}' {
        Some('9')
    } else {
        None
    }
}

/// A superscript digit or the superscript minus.
pub open spec fn is_sup(c: char) -> bool {
    c == '\u{207B}' || sup_digit(c) is Some
}

/// End of the run of superscript characters starting at `j`.
pub open spec fn sup_end(s: Seq<char>, j: int) -> int
    decreases s.len() - j,
{
    if 0 <= j < s.len() && is_sup(s[j]) {
        sup_end(s, j + 1)
    } else {
        j
    }
}

/// The digits that the superscripts in `s[i..e]` stand for, in order.
pub open spec fn sup_digits(s: Seq<char>, i: int, e: int) -> Seq<char>
    decreases e - i,
{
    if i >= e {
        Seq::empty()
    } else {
        sup_digits(s, i, e - 1) + match sup_digit(s[e - 1]) {
            Some(d) => seq![d],
            None => Seq::empty(),
        }
    }
}

/// `s[i..e]` holds a superscript minus.
pub open spec fn sup_minus(s: Seq<char>, i: int, e: int) -> bool
    decreases e - i,
{
    if i >= e {
        false
    } else {
        sup_minus(s, i, e - 1) || s[e - 1] == '\u{207B}'
    }
}

/// The number that the decimal digits `ds` write.
pub open spec fn digits_value(ds: Seq<char>) -> int
    decreases ds.len(),
{
    if ds.len() == 0 {
        0
    } else {
        digits_value(ds.drop_last()) * 10 + (ds.last() as int - '0' as int)
    }
}

/// What `ds.parse::<i32>().unwrap_or(1)` gives for a run of decimal digits:
/// its value when it fits, else 1.
pub open spec fn i32_or_one(ds: Seq<char>) -> int {
    if ds.len() > 0 && 0 <= digits_value(ds) <= i32::MAX {
        digits_value(ds)
    } else {
        1
    }
}

/// The exponent written after a unit atom at `i`, and the position after it:
/// `^` with optional `-` and decimal digits, or superscript digits with
/// optional superscript minus; none means 1.
pub open spec fn exponent_at(s: Seq<char>, i: int) -> (int, int) {
    if 0 <= i < s.len() && s[i] == '^' {
        let j = i + 1;
        let neg = j < s.len() && s[j] == '-';
        let k = if neg { j + 1 } else { j };
        let e = digits_end(s, k);
        let n = i32_or_one(s.subrange(k, e));
        (if neg { -n } else { n }, e)
    } else {
        let e = sup_end(s, i);
        let ds = sup_digits(s, i, e);
        if ds.len() == 0 {
            (1, e)
        } else {
            let n = i32_or_one(ds);
            (if sup_minus(s, i, e) { -n } else { n }, e)
        }
    }
}

pub proof fn lemma_digits_end(s: Seq<char>, j: int)
    requires
        0 <= j <= s.len(),
    ensures
        j <= digits_end(s, j) <= s.len(),
        forall|k: int| j <= k < digits_end(s, j) ==> is_digit_char(#[trigger] s[k]),
    decreases s.len() - j,
{
    if j < s.len() && is_digit_char(s[j]) {
        lemma_digits_end(s, j + 1);
    }
}

pub proof fn lemma_sup_end(s: Seq<char>, j: int)
    requires
        0 <= j <= s.len(),
    ensures
        j <= sup_end(s, j) <= s.len(),
    decreases s.len() - j,
{
    if j < s.len() && is_sup(s[j]) {
        lemma_sup_end(s, j + 1);
    }
}

pub proof fn lemma_exponent_at(s: Seq<char>, i: int)
    requires
        0 <= i <= s.len(),
    ensures
        i <= exponent_at(s, i).1 <= s.len(),
        i32::MIN < exponent_at(s, i).0 <= i32::MAX,
{
    if i < s.len() && s[i] == '^' {
        let j = i + 1;
        let neg = j < s.len() && s[j] == '-';
        let k = if neg { j + 1 } else { j };
        lemma_digits_end(s, k);
    } else {
        lemma_sup_end(s, i);
    }
}


}

verus! {

/// What `ds.parse::<i32>().unwrap_or(1)` gives for decimal digits `ds`.
fn digits_i32_or_one(ds: &Vec<char>) -> (n: i32)
    requires
        forall|k: int| 0 <= k < ds@.len() ==> is_digit_char(#[trigger] ds@[k]),
    ensures
        n as int == i32_or_one(ds@),
{
    let mut val: i64 = 0;
    let mut over = false;
    let mut k: usize = 0;
    while k < ds.len()
        invariant
            k <= ds.len(),
            forall|j: int| 0 <= j < ds@.len() ==> is_digit_char(#[trigger] ds@[j]),
            !over ==> val == digits_value(ds@.take(k as int)) && 0 <= val <= i32::MAX,
            over ==> digits_value(ds@.take(k as int)) > i32::MAX,
        decreases ds.len() - k,
    {
        assert(ds@.take(k + 1).drop_last() =~= ds@.take(k as int));
        assert(ds@.take(k + 1).last() == ds@[k as int]);
        assert(is_digit_char(ds@[k as int]));
        let d = (ds[k] as u32 - '0' as u32) as i64;
        if !over {
            let nv = val * 10 + d;
            if nv > i32::MAX as i64 {
                over = true;
            } else {
                val = nv;
            }
        }
        k += 1;
    }
    assert(ds@.take(ds.len() as int) =~= ds@);
    if ds.len() > 0 && !over {
        val as i32
    } else {
        1
    }
}

pub fn sup_digit_exec(c: char) -> (r: Option<char>)
    ensures
        r == sup_digit(c),
{
    if c == '\u{2070}' {
        Some('0')
    } else if c == '\u{00B9}' {
        Some('1')
    } else if c == '\u{00B2}' {
        Some('2')
    } else if c == '\u{00B3}' {
        Some('3')
    } else if c == '\u{2074}' {
        Some('4')
    } else if c == '\u{2075}' {
        Some('5')
    } else if c == '\u{2076}' {
        Some('6')
    } else if c == '\u{2077}' {
        Some('7')
    } else if c == '\u{2078}' {
        Some('8')
    } else if c == '\u{2079}' {
        Some('9')
    } else {
        None
    }
}

/// The exponent written after a unit atom at `i` and the position after it
/// (see [`exponent_at`]).
pub fn parse_exponent(ch: &Vec<char>, i: usize) -> (r: (i32, usize))
    requires
        i <= ch@.len(),
    ensures
        (r.0 as int, r.1 as int) == exponent_at(ch@, i as int),
{
    let n = ch.len();
    if i < n && ch[i] == '^' {
        let j = i + 1;
        let neg = j < n && ch[j] == '-';
        let k = if neg { j + 1 } else { j };
        let mut e = k;
        while e < n && '0' <= ch[e] && ch[e] <= '9'
            invariant
                k <= e <= n,
                n == ch@.len(),
                digits_end(ch@, e as int) == digits_end(ch@, k as int),
                forall|q: int| k <= q < e ==> is_digit_char(#[trigger] ch@[q]),
            decreases n - e,
        {
            e += 1;
        }
        let ds = crate::text::sub_vec(ch, k, e);
        assert forall|q: int| 0 <= q < ds@.len() implies is_digit_char(#[trigger] ds@[q]) by {
            assert(ds@[q] == ch@[k + q]);
        }
        let v = digits_i32_or_one(&ds);
        (if neg { -v } else { v }, e)
    } else {
        let mut e = i;
        let mut ds: Vec<char> = Vec::new();
        let mut neg = false;
        while e < n && (ch[e] == '\u{207B}' || sup_digit_exec(ch[e]).is_some())
            invariant
                i <= e <= n,
                n == ch@.len(),
                sup_end(ch@, e as int) == sup_end(ch@, i as int),
                ds@ == sup_digits(ch@, i as int, e as int),
                neg == sup_minus(ch@, i as int, e as int),
                forall|q: int| 0 <= q < ds@.len() ==> is_digit_char(#[trigger] ds@[q]),
            decreases n - e,
        {
            let c = ch[e];
            if c == '\u{207B}' {
                neg = true;
            }
            match sup_digit_exec(c) {
                Some(d) => {
                    ds.push(d);
                },
                None => {},
            }
            e += 1;
            assert(ds@ =~= sup_digits(ch@, i as int, e as int));
        }
        if ds.len() == 0 {
            (1, e)
        } else {
            let v = digits_i32_or_one(&ds);
            (if neg { -v } else { v }, e)
        }
    }
}

}

verus! {

// ───────────────────────────── Unit expressions ─────────────────────────────

/// Model of a token of a unit expression.
pub enum SUTok {
    Mul,
    Div,
    Atom(Seq<char>, int),
}

enum UnitTok {
    Mul,
    Div,
    Atom(Vec<char>, i32),
}

impl UnitTok {
    spec fn sv(&self) -> SUTok {
        match self {
            UnitTok::Mul => SUTok::Mul,
            UnitTok::Div => SUTok::Div,
            UnitTok::Atom(n, e) => SUTok::Atom(n@, *e as int),
        }
    }
}

spec fn utoks_view(v: Seq<UnitTok>) -> Seq<SUTok> {
    v.map_values(|t: UnitTok| t.sv())
}

/// `·`, `*` and `⋅` all multiply.
pub open spec fn is_unit_mul(c: char) -> bool {
    c == '\u{00B7}' || c == '*' || c == '\u{22C5}'
}

/// A character of a unit atom: alphabetic or `%`.
pub open spec fn atom_char(c: char) -> bool {
    alphabetic(c) || c == '%'
}

/// End of the atom whose characters continue from `j`.
pub open spec fn atom_end(s: Seq<char>, j: int) -> int
    decreases s.len() - j,
{
    if 0 <= j < s.len() && atom_char(s[j]) {
        atom_end(s, j + 1)
    } else {
        j
    }
}

pub proof fn lemma_atom_end(s: Seq<char>, j: int)
    requires
        0 <= j <= s.len(),
    ensures
        j <= atom_end(s, j) <= s.len(),
    decreases s.len() - j,
{
    if j < s.len() && atom_char(s[j]) {
        lemma_atom_end(s, j + 1);
    }
}

pub open spec fn cons_ut(t: SUTok, r: Option<Seq<SUTok>>) -> Option<Seq<SUTok>> {
    match r {
        Some(ts) => Some(seq![t] + ts),
        None => None,
    }
}

/// Tokens of a unit expression from `i`: multiplication and division marks,
/// and atoms with their exponents; blanks are skipped; any other character
/// makes the expression invalid.
pub open spec fn utoks(s: Seq<char>, i: int) -> Option<Seq<SUTok>>
    decreases s.len() - i,
{
    if i < 0 || i >= s.len() {
        Some(Seq::empty())
    } else {
        let c = s[i];
        if is_unit_mul(c) {
            cons_ut(SUTok::Mul, utoks(s, i + 1))
        } else if c == '/' {
            cons_ut(SUTok::Div, utoks(s, i + 1))
        } else if c == ' ' || c == '\t' {
            utoks(s, i + 1)
        } else if atom_char(c) {
            let ne = atom_end(s, i + 1);
            proof {
                lemma_atom_end(s, i + 1);
                lemma_exponent_at(s, ne);
            }
            let (x, j) = exponent_at(s, ne);
            cons_ut(SUTok::Atom(s.subrange(i, ne), x), utoks(s, j))
        } else {
            None
        }
    }
}

/// A factor of a unit: atom index, exponent, and whether it divides.
#[derive(Clone, Copy, Debug, PartialEq, Eq, Structural)]
pub struct UnitFactor {
    pub atom: usize,
    pub exp: i32,
    pub divide: bool,
}

/// Model of a unit factor.
pub type SFactor = (int, int, bool);

pub open spec fn factor_view(f: UnitFactor) -> SFactor {
    (f.atom as int, f.exp as int, f.divide)
}

pub open spec fn factors_view(v: Seq<UnitFactor>) -> Seq<SFactor> {
    v.map_values(|f: UnitFactor| factor_view(f))
}

/// The factors that the tokens from `i` stand for: a `/` makes the next
/// atom divide, a multiplication mark makes it multiply; an unknown atom
/// makes the expression invalid.
pub open spec fn unit_factors(ts: Seq<SUTok>, i: int, dividing: bool) -> Option<Seq<SFactor>>
    decreases ts.len() - i,
{
    if i < 0 || i >= ts.len() {
        Some(Seq::empty())
    } else {
        match ts[i] {
            SUTok::Mul => unit_factors(ts, i + 1, false),
            SUTok::Div => unit_factors(ts, i + 1, true),
            SUTok::Atom(n, x) => match find_atom(n) {
                Some(k) => match unit_factors(ts, i + 1, false) {
                    Some(rest) => Some(seq![(k, x, dividing)] + rest),
                    None => None,
                },
                None => None,
            },
        }
    }
}

/// The dimension of the factors from `i` on, starting from `acc`; `None`
/// when an exponent overflows on the way.
pub open spec fn dim_fold(fs: Seq<SFactor>, i: int, acc: Seq<i8>) -> Option<Seq<i8>>
    decreases fs.len() - i,
{
    if i < 0 || i >= fs.len() {
        Some(acc)
    } else {
        let (k, x, dv) = fs[i];
        let ad = atom_table()[k].1;
        if !scale_fits(ad, x) {
            None
        } else {
            let a = scale_dims(ad, x);
            if dv {
                if diff_fits(acc, a) { dim_fold(fs, i + 1, diff_dims(acc, a)) } else { None }
            } else {
                if sum_fits(acc, a) { dim_fold(fs, i + 1, sum_dims(acc, a)) } else { None }
            }
        }
    }
}

/// The factors of a unit string: blank means no factor, a whole atom symbol
/// is that atom, anything else is read as a unit expression.
pub open spec fn unit_spec(u: Seq<char>) -> Option<Seq<SFactor>> {
    let t = trim_spec(u);
    if t.len() == 0 {
        Some(Seq::empty())
    } else {
        match find_atom(t) {
            Some(k) => Some(seq![(k, 1int, false)]),
            None => match utoks(t, 0) {
                Some(ts) => unit_factors(ts, 0, false),
                None => None,
            },
        }
    }
}

/// The dimension of a valid unit string, `None` when an exponent overflows.
pub open spec fn unit_dim_spec(u: Seq<char>) -> Option<Seq<i8>> {
    match unit_spec(u) {
        Some(fs) => dim_fold(fs, 0, dims_none()),
        None => None,
    }
}

/// The exponents of the unit string stay in range (else the computation
/// would overflow).
pub open spec fn unit_in_range(u: Seq<char>) -> bool {
    unit_spec(u) is Some ==> unit_dim_spec(u) is Some
}

/// A parsed unit: its dimension, and the factors from which its SI
/// multiplier is the product, in order, of each atom's multiplier raised to
/// its exponent (divided by it when the factor divides).
#[derive(Clone, Debug)]
pub struct ParsedUnit {
    pub dim: Dim,
    pub factors: Vec<UnitFactor>,
}

fn unit_tokenise(s: &Vec<char>) -> (r: Option<Vec<UnitTok>>)
    ensures
        match utoks(s@, 0) {
            Some(ts) => r is Some && utoks_view(r->Some_0@) == ts,
            None => r is None,
        },
{
    let n = s.len();
    let mut toks: Vec<UnitTok> = Vec::new();
    let mut i: usize = 0;
    while i < n
        invariant
            n == s@.len(),
            i <= n,
            match utoks(s@, i as int) {
                Some(rest) => utoks(s@, 0) == Some(utoks_view(toks@) + rest),
                None => utoks(s@, 0) is None,
            },
        decreases n - i,
    {
        let c = s[i];
        let ghost before = utoks_view(toks@);
        if c == '\u{00B7}' || c == '*' || c == '\u{22C5}' || c == '/' {
            let t = if c == '/' { UnitTok::Div } else { UnitTok::Mul };
            let ghost st = t.sv();
            toks.push(t);
            assert(utoks_view(toks@) =~= before.push(st));
            proof {
                match utoks(s@, i + 1) {
                    Some(r) => {
                        assert(before + (seq![st] + r) =~= before.push(st) + r);
                    },
                    None => {},
                }
            }
            i += 1;
        } else if c == ' ' || c == '\t' {
            i += 1;
        } else if is_alphabetic(c) || c == '%' {
            let mut e = i + 1;
            while e < n && (is_alphabetic(s[e]) || s[e] == '%')
                invariant
                    i < e <= n,
                    n == s@.len(),
                    atom_end(s@, e as int) == atom_end(s@, i + 1),
                decreases n - e,
            {
                e += 1;
            }
            proof {
                lemma_atom_end(s@, i + 1);
                lemma_exponent_at(s@, e as int);
            }
            let name = crate::text::sub_vec(s, i, e);
            let (x, j) = parse_exponent(s, e);
            let t = UnitTok::Atom(name, x);
            let ghost st = t.sv();
            toks.push(t);
            assert(utoks_view(toks@) =~= before.push(st));
            proof {
                match utoks(s@, j as int) {
                    Some(r) => {
                        assert(before + (seq![st] + r) =~= before.push(st) + r);
                    },
                    None => {},
                }
            }
            i = j;
        } else {
            return None;
        }
    }
    assert(utoks_view(toks@) + Seq::<SUTok>::empty() =~= utoks_view(toks@));
    Some(toks)
}

}

verus! {

fn tokens_to_factors(atoms: &Vec<(&'static str, Dim, Scale)>, toks: &Vec<UnitTok>) -> (r: Option<Vec<UnitFactor>>)
    requires
        atoms@.map_values(|e: (&'static str, Dim, Scale)| unit_view(e)) == atom_table(),
    ensures
        match unit_factors(utoks_view(toks@), 0, false) {
            Some(fs) => r is Some && factors_view(r->Some_0@) == fs,
            None => r is None,
        },
{
    let ghost ts = utoks_view(toks@);
    let mut out: Vec<UnitFactor> = Vec::new();
    let mut dividing = false;
    let mut i: usize = 0;
    while i < toks.len()
        invariant
            i <= toks.len(),
            ts == utoks_view(toks@),
            atoms@.map_values(|e: (&'static str, Dim, Scale)| unit_view(e)) == atom_table(),
            match unit_factors(ts, i as int, dividing) {
                Some(rest) => unit_factors(ts, 0, false) == Some(factors_view(out@) + rest),
                None => unit_factors(ts, 0, false) is None,
            },
        decreases toks.len() - i,
    {
        assert(ts[i as int] == toks@[i as int].sv());
        match &toks[i] {
            UnitTok::Mul => {
                assert(unit_factors(ts, i as int, dividing) == unit_factors(ts, i + 1, false));
                dividing = false;
            },
            UnitTok::Div => {
                assert(unit_factors(ts, i as int, dividing) == unit_factors(ts, i + 1, true));
                dividing = true;
            },
            UnitTok::Atom(name, x) => {
                assert(ts[i as int] == SUTok::Atom(name@, *x as int));
                match lookup_atom(atoms, name) {
                    Some(k) => {
                        proof {
                            lemma_find_unit_from(atom_table(), name@, 0);
                        }
                        assert(find_atom(name@) == Some(k as int));
                        let f = UnitFactor { atom: k, exp: *x, divide: dividing };
                        assert(factor_view(f) == (k as int, *x as int, dividing));
                        let ghost before = factors_view(out@);
                        out.push(f);
                        assert(factors_view(out@) =~= before.push(factor_view(f)));
                        proof {
                            match unit_factors(ts, i + 1, false) {
                                Some(r) => {
                                    assert(before + (seq![factor_view(f)] + r) =~= before.push(factor_view(f)) + r);
                                },
                                None => {},
                            }
                        }
                        dividing = false;
                    },
                    None => {
                        return None;
                    },
                }
            },
        }
        i += 1;
    }
    assert(factors_view(out@) + Seq::<SFactor>::empty() =~= factors_view(out@));
    Some(out)
}

fn fold_dims(atoms: &Vec<(&'static str, Dim, Scale)>, fs: &Vec<UnitFactor>) -> (d: Dim)
    requires
        atoms@.map_values(|e: (&'static str, Dim, Scale)| unit_view(e)) == atom_table(),
        forall|q: int| 0 <= q < fs@.len() ==> (#[trigger] fs@[q]).atom < atom_table().len(),
        dim_fold(factors_view(fs@), 0, dims_none()) is Some,
    ensures
        d@ == dim_fold(factors_view(fs@), 0, dims_none())->Some_0,
{
    let ghost fv = factors_view(fs@);
    let mut dim = Dim::none();
    let mut i: usize = 0;
    while i < fs.len()
        invariant
            i <= fs.len(),
            fv == factors_view(fs@),
            atoms@.map_values(|e: (&'static str, Dim, Scale)| unit_view(e)) == atom_table(),
            forall|q: int| 0 <= q < fs@.len() ==> (#[trigger] fs@[q]).atom < atom_table().len(),
            dim@.len() == 7,
            dim_fold(fv, i as int, dim@) == dim_fold(fv, 0, dims_none()),
            dim_fold(fv, 0, dims_none()) is Some,
        decreases fs.len() - i,
    {
        let f = fs[i];
        assert(fv[i as int] == factor_view(f));
        assert(f.atom < atom_table().len());
        assert(atom_table()[f.atom as int] == unit_view(atoms@[f.atom as int]));
        let ad = atoms[f.atom].1;
        let a = ad.pow_int(f.exp);
        if f.divide {
            dim = dim.div(a);
        } else {
            dim = dim.mul(a);
        }
        i += 1;
    }
    dim
}

/// Parses a unit string into its dimension and factors (see [`unit_spec`]).
/// Returns `None` for a string that is not a unit.
pub fn parse_unit(u: &str) -> (r: Option<ParsedUnit>)
    requires
        unit_in_range(u@),
    ensures
        match unit_spec(u@) {
            Some(fs) => r is Some && factors_view(r->Some_0.factors@) == fs
                && r->Some_0.dim@ == unit_dim_spec(u@)->Some_0,
            None => r is None,
        },
{
    let atoms = base_unit_atoms();
    let s = chars_of(u);
    let t = trim_chars(&s);
    if t.len() == 0 {
        let fs: Vec<UnitFactor> = Vec::new();
        assert(factors_view(fs@) =~= Seq::<SFactor>::empty());
        return Some(ParsedUnit { dim: Dim::none(), factors: fs });
    }
    if let Some(k) = lookup_atom(&atoms, &t) {
        proof {
            lemma_find_unit_from(atom_table(), t@, 0);
        }
        let f = UnitFactor { atom: k, exp: 1, divide: false };
        let mut fs: Vec<UnitFactor> = Vec::new();
        fs.push(f);
        assert(factors_view(fs@) =~= seq![(k as int, 1int, false)]);
        assert(atom_table()[k as int] == unit_view(atoms@[k as int]));
        let d = fold_dims(&atoms, &fs);
        return Some(ParsedUnit { dim: d, factors: fs });
    }
    match unit_tokenise(&t) {
        Some(toks) => match tokens_to_factors(&atoms, &toks) {
            Some(fs) => {
                proof {
                    lemma_factors_in_table(utoks_view(toks@), 0, false);
                    assert forall|q: int| 0 <= q < fs@.len() implies (#[trigger] fs@[q]).atom < atom_table().len() by {
                        assert(factors_view(fs@)[q] == factor_view(fs@[q]));
                    }
                }
                let d = fold_dims(&atoms, &fs);
                Some(ParsedUnit { dim: d, factors: fs })
            },
            None => None,
        },
        None => None,
    }
}

/// Every factor names an atom of the table.
pub proof fn lemma_factors_in_table(ts: Seq<SUTok>, i: int, dividing: bool)
    ensures
        unit_factors(ts, i, dividing) matches Some(fs) ==> forall|q: int|
            0 <= q < fs.len() ==> 0 <= (#[trigger] fs[q]).0 < atom_table().len(),
    decreases ts.len() - i,
{
    if 0 <= i < ts.len() {
        match ts[i] {
            SUTok::Mul => lemma_factors_in_table(ts, i + 1, false),
            SUTok::Div => lemma_factors_in_table(ts, i + 1, true),
            SUTok::Atom(n, x) => {
                lemma_factors_in_table(ts, i + 1, false);
                lemma_find_unit_from(atom_table(), n, 0);
                match (find_atom(n), unit_factors(ts, i + 1, false)) {
                    (Some(k), Some(rest)) => {
                        let fs = seq![(k, x, dividing)] + rest;
                        assert forall|q: int| 0 <= q < fs.len() implies 0 <= (#[trigger] fs[q]).0 < atom_table().len() by {
                            if q > 0 {
                                assert(fs[q] == rest[q - 1]);
                            }
                        }
                    },
                    _ => {},
                }
            },
        }
    }
}

/// Whether the exponents of a unit string stay in range (see [`unit_in_range`]),
/// so that [`parse_unit`] may be called on it.
pub fn unit_dims_fit(u: &str) -> (b: bool)
    ensures
        b == unit_in_range(u@),
{
    let atoms = base_unit_atoms();
    let s = chars_of(u);
    let t = trim_chars(&s);
    if t.len() == 0 {
        return true;
    }
    if let Some(k) = lookup_atom(&atoms, &t) {
        proof {
            lemma_find_unit_from(atom_table(), t@, 0);
            let a = atom_table()[k as int].1;
            let fs1 = seq![(k as int, 1int, false)];
            assert(unit_spec(u@) == Some(fs1));
            assert(a.len() == 7);
            assert(scale_fits(a, 1));
            assert(scale_dims(a, 1) =~= a);
            assert(sum_fits(dims_none(), a));
            assert(dim_fold(fs1, 1, sum_dims(dims_none(), a)) is Some);
            assert(dim_fold(fs1, 0, dims_none()) is Some);
        }
        return true;
    }
    match unit_tokenise(&t) {
        Some(toks) => match tokens_to_factors(&atoms, &toks) {
            Some(fs) => {
                proof {
                    lemma_factors_in_table(utoks_view(toks@), 0, false);
                    assert forall|q: int| 0 <= q < fs@.len() implies (#[trigger] fs@[q]).atom < atom_table().len() by {
                        assert(factors_view(fs@)[q] == factor_view(fs@[q]));
                    }
                }
                fold_fits(&atoms, &fs)
            },
            None => true,
        },
        None => true,
    }
}

/// Parses a unit string whose exponents stay in range; `None` when they do
/// not (where the dimension arithmetic would overflow), else what
/// [`parse_unit`] gives.
pub fn parse_unit_in_range(u: &str) -> (r: Option<Option<ParsedUnit>>)
    ensures
        !unit_in_range(u@) ==> r is None,
        unit_in_range(u@) ==> r is Some && match unit_spec(u@) {
            Some(fs) => r->Some_0 is Some && factors_view(r->Some_0->Some_0.factors@) == fs
                && r->Some_0->Some_0.dim@ == unit_dim_spec(u@)->Some_0,
            None => r->Some_0 is None,
        },
{
    if unit_dims_fit(u) {
        Some(parse_unit(u))
    } else {
        None
    }
}

#[verifier::loop_isolation(false)]
fn fold_fits(atoms: &Vec<(&'static str, Dim, Scale)>, fs: &Vec<UnitFactor>) -> (b: bool)
    requires
        atoms@.map_values(|e: (&'static str, Dim, Scale)| unit_view(e)) == atom_table(),
        forall|q: int| 0 <= q < fs@.len() ==> (#[trigger] fs@[q]).atom < atom_table().len(),
    ensures
        b == (dim_fold(factors_view(fs@), 0, dims_none()) is Some),
{
    let ghost fv = factors_view(fs@);
    let mut dim = Dim::none();
    let mut i: usize = 0;
    while i < fs.len()
        invariant
            i <= fs.len(),
            fv == factors_view(fs@),
            atoms@.map_values(|e: (&'static str, Dim, Scale)| unit_view(e)) == atom_table(),
            forall|q: int| 0 <= q < fs@.len() ==> (#[trigger] fs@[q]).atom < atom_table().len(),
            dim@.len() == 7,
            dim_fold(fv, i as int, dim@) == dim_fold(fv, 0, dims_none()),
        decreases fs.len() - i,
    {
        let f = fs[i];
        assert(fv[i as int] == factor_view(f));
        assert(atom_table()[f.atom as int] == unit_view(atoms@[f.atom as int]));
        let ad = atoms[f.atom].1;
        let mut k: usize = 0;
        while k < 7
            invariant
                k <= 7,
                forall|q: int| 0 <= q < k ==> i32::MIN <= #[trigger] ad@[q] * f.exp <= i32::MAX,
            decreases 7 - k,
        {
            let v = ad.0[k] as i64;
            let x = f.exp as i64;
            assert(-128 <= v <= 127 && i32::MIN <= x <= i32::MAX);
            assert(-0x100_0000_0000 <= v * x <= 0x100_0000_0000) by (nonlinear_arith)
                requires
                    -128 <= v <= 127,
                    i32::MIN <= x <= i32::MAX,
            ;
            let p = v * x;
            if p < i32::MIN as i64 || p > i32::MAX as i64 {
                assert(!scale_fits(ad@, f.exp as int)) by {
                    assert(ad@[k as int] * f.exp == p);
                }
                assert(ad@ == atom_table()[fv[i as int].0].1);
                assert(dim_fold(fv, i as int, dim@) is None);
                return false;
            }
            k += 1;
        }
        let a = ad.pow_int(f.exp);
        let mut k: usize = 0;
        while k < 7
            invariant
                k <= 7,
                f.divide ==> forall|q: int| 0 <= q < k ==> i8::MIN <= #[trigger] dim@[q] - a@[q] <= i8::MAX,
                !f.divide ==> forall|q: int| 0 <= q < k ==> i8::MIN <= #[trigger] dim@[q] + a@[q] <= i8::MAX,
            decreases 7 - k,
        {
            let x = if f.divide { dim.0[k] as i16 - a.0[k] as i16 } else { dim.0[k] as i16 + a.0[k] as i16 };
            if x < -128 || x > 127 {
                proof {
                    assert(ad@ == atom_table()[fv[i as int].0].1);
                    if f.divide {
                        assert(!diff_fits(dim@, a@)) by {
                            assert(dim@[k as int] - a@[k as int] == x);
                        }
                    } else {
                        assert(!sum_fits(dim@, a@)) by {
                            assert(dim@[k as int] + a@[k as int] == x);
                        }
                    }
                    assert(dim_fold(fv, i as int, dim@) is None);
                }
                return false;
            }
            k += 1;
        }
        if f.divide {
            dim = dim.div(a);
        } else {
            dim = dim.mul(a);
        }
        i += 1;
    }
    true
}

}

verus! {

// ───────────────────────────── Display units ─────────────────────────────

/// The named display units, in order of preference on ties.
pub open spec fn display_table() -> Seq<SUnit> {
    seq![
        ("mm"@, dims7(1, 0, 0, 0, 0, 0, 0), sc(1, 1000)),
        ("cm"@, dims7(1, 0, 0, 0, 0, 0, 0), sc(1, 100)),
        ("m"@, dims7(1, 0, 0, 0, 0, 0, 0), sc(1, 1)),
        ("km"@, dims7(1, 0, 0, 0, 0, 0, 0), sc(1000, 1)),
        ("mm\u{00B2}"@, dims7(2, 0, 0, 0, 0, 0, 0), sc(1, 1000000)),
        ("cm\u{00B2}"@, dims7(2, 0, 0, 0, 0, 0, 0), sc(1, 10000)),
        ("m\u{00B2}"@, dims7(2, 0, 0, 0, 0, 0, 0), sc(1, 1)),
        ("mm\u{00B3}"@, dims7(3, 0, 0, 0, 0, 0, 0), sc(1, 1000000000)),
        ("cm\u{00B3}"@, dims7(3, 0, 0, 0, 0, 0, 0), sc(1, 1000000)),
        ("m\u{00B3}"@, dims7(3, 0, 0, 0, 0, 0, 0), sc(1, 1)),
        ("mm\u{2074}"@, dims7(4, 0, 0, 0, 0, 0, 0), sc(1, 1000000000000)),
        ("cm\u{2074}"@, dims7(4, 0, 0, 0, 0, 0, 0), sc(1, 100000000)),
        ("m\u{2074}"@, dims7(4, 0, 0, 0, 0, 0, 0), sc(1, 1)),
        ("g"@, dims7(0, 1, 0, 0, 0, 0, 0), sc(1, 1000)),
        ("kg"@, dims7(0, 1, 0, 0, 0, 0, 0), sc(1, 1)),
        ("t"@, dims7(0, 1, 0, 0, 0, 0, 0), sc(1000, 1)),
        ("N"@, dims7(1, 1, -2, 0, 0, 0, 0), sc(1, 1)),
        ("kN"@, dims7(1, 1, -2, 0, 0, 0, 0), sc(1000, 1)),
        ("MN"@, dims7(1, 1, -2, 0, 0, 0, 0), sc(1000000, 1)),
        ("N\u{00B7}mm"@, dims7(2, 1, -2, 0, 0, 0, 0), sc(1, 1000)),
        ("N\u{00B7}m"@, dims7(2, 1, -2, 0, 0, 0, 0), sc(1, 1)),
        ("kN\u{00B7}m"@, dims7(2, 1, -2, 0, 0, 0, 0), sc(1000, 1)),
        ("MN\u{00B7}m"@, dims7(2, 1, -2, 0, 0, 0, 0), sc(1000000, 1)),
        ("Pa"@, dims7(-1, 1, -2, 0, 0, 0, 0), sc(1, 1)),
        ("kPa"@, dims7(-1, 1, -2, 0, 0, 0, 0), sc(1000, 1)),
        ("MPa"@, dims7(-1, 1, -2, 0, 0, 0, 0), sc(1000000, 1)),
        ("GPa"@, dims7(-1, 1, -2, 0, 0, 0, 0), sc(1000000000, 1)),
        ("N/m"@, dims7(0, 1, -2, 0, 0, 0, 0), sc(1, 1)),
        ("kN/m"@, dims7(0, 1, -2, 0, 0, 0, 0), sc(1000, 1)),
        ("N/mm"@, dims7(0, 1, -2, 0, 0, 0, 0), sc(1000, 1)),
    ]
}

fn line_load() -> (d: Dim)
    ensures
        d@ == dims7(0, 1, -2, 0, 0, 0, 0),
{
    Dim([0, 1, -2, 0, 0, 0, 0])
}

/// The named display units: symbol, dimension and SI multiplier of each.
pub fn named_display_units() -> (v: Vec<(&'static str, Dim, Scale)>)
    ensures
        v@.map_values(|e: (&'static str, Dim, Scale)| unit_view(e)) == display_table(),
{
    let mut v: Vec<(&'static str, Dim, Scale)> = Vec::new();
    v.push(("mm", Dim::m(), mk_scale(1, 1000)));
    v.push(("cm", Dim::m(), mk_scale(1, 100)));
    v.push(("m", Dim::m(), mk_scale(1, 1)));
    v.push(("km", Dim::m(), mk_scale(1000, 1)));
    v.push(("mm\u{00B2}", Dim::m2(), mk_scale(1, 1000000)));
    v.push(("cm\u{00B2}", Dim::m2(), mk_scale(1, 10000)));
    v.push(("m\u{00B2}", Dim::m2(), mk_scale(1, 1)));
    v.push(("mm\u{00B3}", Dim::m3(), mk_scale(1, 1000000000)));
    v.push(("cm\u{00B3}", Dim::m3(), mk_scale(1, 1000000)));
    v.push(("m\u{00B3}", Dim::m3(), mk_scale(1, 1)));
    v.push(("mm\u{2074}", Dim::m4(), mk_scale(1, 1000000000000)));
    v.push(("cm\u{2074}", Dim::m4(), mk_scale(1, 100000000)));
    v.push(("m\u{2074}", Dim::m4(), mk_scale(1, 1)));
    v.push(("g", Dim::kg(), mk_scale(1, 1000)));
    v.push(("kg", Dim::kg(), mk_scale(1, 1)));
    v.push(("t", Dim::kg(), mk_scale(1000, 1)));
    v.push(("N", Dim::n(), mk_scale(1, 1)));
    v.push(("kN", Dim::n(), mk_scale(1000, 1)));
    v.push(("MN", Dim::n(), mk_scale(1000000, 1)));
    v.push(("N\u{00B7}mm", Dim::j(), mk_scale(1, 1000)));
    v.push(("N\u{00B7}m", Dim::j(), mk_scale(1, 1)));
    v.push(("kN\u{00B7}m", Dim::j(), mk_scale(1000, 1)));
    v.push(("MN\u{00B7}m", Dim::j(), mk_scale(1000000, 1)));
    v.push(("Pa", Dim::pa(), mk_scale(1, 1)));
    v.push(("kPa", Dim::pa(), mk_scale(1000, 1)));
    v.push(("MPa", Dim::pa(), mk_scale(1000000, 1)));
    v.push(("GPa", Dim::pa(), mk_scale(1000000000, 1)));
    v.push(("N/m", line_load(), mk_scale(1, 1)));
    v.push(("kN/m", line_load(), mk_scale(1000, 1)));
    v.push(("N/mm", line_load(), mk_scale(1000, 1)));
    assert(v@.map_values(|e: (&'static str, Dim, Scale)| unit_view(e)) =~= display_table());
    v
}

/// Indices, in increasing order, of the entries of `t` from `i` on whose
/// dimension is `d`.
pub open spec fn candidates_from(t: Seq<SUnit>, d: Seq<i8>, i: int) -> Seq<int>
    decreases t.len() - i,
{
    if i < 0 || i >= t.len() {
        Seq::empty()
    } else if t[i].1 == d {
        seq![i] + candidates_from(t, d, i + 1)
    } else {
        candidates_from(t, d, i + 1)
    }
}

/// Indices of the display units of dimension `dim`, in table order: the
/// candidates among which a display unit is chosen for a result of that
/// dimension. None for a dimensionless result.
pub fn display_candidates(dim: Dim) -> (r: Vec<usize>)
    ensures
        dim@ == dims_none() ==> r@.len() == 0,
        dim@ != dims_none() ==> r@.map_values(|k: usize| k as int) == candidates_from(display_table(), dim@, 0),
{
    let mut r: Vec<usize> = Vec::new();
    if dim.is_dimensionless() {
        return r;
    }
    let table = named_display_units();
    let ghost t = display_table();
    let mut i: usize = 0;
    while i < table.len()
        invariant
            i <= table.len(),
            table@.map_values(|e: (&'static str, Dim, Scale)| unit_view(e)) == t,
            t == display_table(),
            candidates_from(t, dim@, 0) == r@.map_values(|k: usize| k as int) + candidates_from(t, dim@, i as int),
        decreases table.len() - i,
    {
        assert(t[i as int] == unit_view(table@[i as int]));
        let ghost before = r@.map_values(|k: usize| k as int);
        if table[i].1 == dim {
            r.push(i);
            assert(r@.map_values(|k: usize| k as int) =~= before.push(i as int));
            assert(before + (seq![i as int] + candidates_from(t, dim@, i + 1)) =~= before.push(i as int) + candidates_from(t, dim@, i + 1));
        }
        i += 1;
    }
    assert(r@.map_values(|k: usize| k as int) + Seq::<int>::empty() =~= r@.map_values(|k: usize| k as int));
    r
}

}

verus! {

/// A character of an atom symbol of the table: an ASCII letter or `%`.
pub open spec fn symbol_char(c: char) -> bool {
    ('a' <= c <= 'z') || ('A' <= c <= 'Z') || c == '%'
}

/// Every atom symbol of the table is made of ASCII letters and `%`, and
/// every atom's dimension has seven exponents.
proof fn lemma_atom_symbols(k: int)
    requires
        0 <= k < atom_table().len(),
    ensures
        atom_table()[k].0.len() >= 1,
        forall|q: int| 0 <= q < atom_table()[k].0.len() ==> symbol_char(#[trigger] atom_table()[k].0[q]),
        atom_table()[k].1.len() == 7,
{
    reveal_strlit("mm");
    reveal_strlit("cm");
    reveal_strlit("m");
    reveal_strlit("km");
    reveal_strlit("in");
    reveal_strlit("ft");
    reveal_strlit("g");
    reveal_strlit("kg");
    reveal_strlit("t");
    reveal_strlit("ms");
    reveal_strlit("s");
    reveal_strlit("min");
    reveal_strlit("hr");
    reveal_strlit("N");
    reveal_strlit("kN");
    reveal_strlit("MN");
    reveal_strlit("lbf");
    reveal_strlit("kip");
    reveal_strlit("Pa");
    reveal_strlit("kPa");
    reveal_strlit("MPa");
    reveal_strlit("GPa");
    reveal_strlit("psi");
    reveal_strlit("ksi");
    reveal_strlit("J");
    reveal_strlit("kJ");
    reveal_strlit("MJ");
    reveal_strlit("%");
    reveal_strlit("rad");
    reveal_strlit("deg");
}

proof fn lemma_symbol_chars(name: Seq<char>, i: int)
    requires
        find_atom(name) == Some(i),
    ensures
        name.len() >= 1,
        forall|q: int| 0 <= q < name.len() ==> symbol_char(#[trigger] name[q]),
        0 <= i < atom_table().len(),
        atom_table()[i].1.len() == 7,
{
    lemma_find_unit_from(atom_table(), name, 0);
    lemma_atom_symbols(i);
}

/// No atom symbol holds a character that is not a symbol character.
proof fn lemma_not_a_symbol(name: Seq<char>, p: int)
    requires
        0 <= p < name.len(),
        !symbol_char(name[p]),
    ensures
        find_atom(name) is None,
{
    if find_atom(name) is Some {
        let k = find_atom(name)->Some_0;
        lemma_find_unit_from(atom_table(), name, 0);
        lemma_atom_symbols(k);
        assert(symbol_char(atom_table()[k].0[p]));
    }
}

proof fn lemma_atom_end_at(s: Seq<char>, j: int, e: int)
    requires
        0 <= j <= e <= s.len(),
        forall|q: int| j <= q < e ==> atom_char(#[trigger] s[q]),
        e == s.len() || !atom_char(s[e]),
    ensures
        atom_end(s, j) == e,
    decreases e - j,
{
    if j < e {
        lemma_atom_end_at(s, j + 1, e);
    }
}

/// The unit `a·b` (or `a*b`, `a⋅b`) of two atoms is their product and
/// `a/b` their quotient: its factors are the two atoms, the second
/// dividing after `/`, and its dimension is the sum, or the difference, of
/// the two dimensions.
pub proof fn law_product_of_atoms(a: Seq<char>, b: Seq<char>, op: char, i: int, j: int)
    requires
        find_atom(a) == Some(i),
        find_atom(b) == Some(j),
        is_unit_mul(op) || op == '/',
    ensures
        unit_spec(a + seq![op] + b) == Some(seq![(i, 1int, false), (j, 1int, op == '/')]),
        op != '/' && sum_fits(atom_table()[i].1, atom_table()[j].1) ==> unit_dim_spec(a + seq![op] + b) == Some(
            sum_dims(atom_table()[i].1, atom_table()[j].1),
        ),
        op == '/' && diff_fits(atom_table()[i].1, atom_table()[j].1) ==> unit_dim_spec(a + seq![op] + b) == Some(
            diff_dims(atom_table()[i].1, atom_table()[j].1),
        ),
{
    lemma_symbol_chars(a, i);
    lemma_symbol_chars(b, j);
    let s = a + seq![op] + b;
    let n = a.len() as int;
    let m = s.len() as int;
    assert(s[n] == op);
    assert forall|q: int| 0 <= q < n implies #[trigger] s[q] == a[q] by {}
    assert forall|q: int| n < q < m implies #[trigger] s[q] == b[q - n - 1] by {}
    assert forall|q: int| 0 <= q < n implies atom_char(#[trigger] s[q]) by {
        assert(symbol_char(a[q]));
    }
    assert forall|q: int| n + 1 <= q < m implies atom_char(#[trigger] s[q]) by {
        assert(symbol_char(b[q - n - 1]));
    }
    // trimming keeps the whole string
    assert(!crate::text::white_space(s[0])) by {
        assert(symbol_char(a[0]));
    }
    assert(!crate::text::white_space(s[m - 1])) by {
        assert(symbol_char(b[b.len() - 1]));
    }
    assert(crate::text::trim_lo(s, 0) == 0);
    assert(crate::text::trim_hi(s, m) == m);
    assert(trim_spec(s) =~= s);
    // the whole is no atom
    lemma_not_a_symbol(s, n);
    // its tokens
    lemma_atom_end_at(s, 1, n);
    lemma_atom_end_at(s, n + 2, m);
    assert(exponent_at(s, n) == (1int, n));
    assert(exponent_at(s, m) == (1int, m));
    assert(s.subrange(0, n) =~= a);
    assert(s.subrange(n + 1, m) =~= b);
    assert(utoks(s, m) == Some(Seq::<SUTok>::empty()));
    let t3 = seq![SUTok::Atom(b, 1)];
    assert(utoks(s, n + 1) == Some(t3)) by {
        assert(seq![SUTok::Atom(b, 1)] + Seq::<SUTok>::empty() =~= t3);
    }
    let mark = if op == '/' { SUTok::Div } else { SUTok::Mul };
    assert(utoks(s, n) == Some(seq![mark] + t3));
    let ts = seq![SUTok::Atom(a, 1), mark, SUTok::Atom(b, 1)];
    assert(utoks(s, 0) == Some(ts)) by {
        assert(seq![SUTok::Atom(a, 1)] + (seq![mark] + t3) =~= ts);
    }
    // its factors
    assert(unit_factors(ts, 3, false) == Some(Seq::<SFactor>::empty()));
    let dv = op == '/';
    assert(unit_factors(ts, 2, dv) == Some(seq![(j, 1int, dv)])) by {
        assert(seq![(j, 1int, dv)] + Seq::<SFactor>::empty() =~= seq![(j, 1int, dv)]);
    }
    assert(unit_factors(ts, 1, false) == Some(seq![(j, 1int, dv)]));
    let fs = seq![(i, 1int, false), (j, 1int, dv)];
    assert(unit_factors(ts, 0, false) == Some(fs)) by {
        assert(seq![(i, 1int, false)] + seq![(j, 1int, dv)] =~= fs);
    }
    // its dimension
    let da = atom_table()[i].1;
    let db = atom_table()[j].1;
    assert(scale_dims(da, 1) =~= da);
    assert(scale_dims(db, 1) =~= db);
    assert(sum_dims(dims_none(), da) =~= da);
    assert(sum_fits(dims_none(), da));
    assert(scale_fits(da, 1));
    assert(scale_fits(db, 1));
    assert(dim_fold(fs, 2, sum_dims(da, db)) == Some(sum_dims(da, db)));
    assert(dim_fold(fs, 2, diff_dims(da, db)) == Some(diff_dims(da, db)));
    assert(fs[0] == (i, 1int, false));
    assert(fs[1] == (j, 1int, dv));
    assert(dim_fold(fs, 0, dims_none()) == dim_fold(fs, 1, da));
    if !dv && sum_fits(da, db) {
        assert(dim_fold(fs, 1, da) == dim_fold(fs, 2, sum_dims(da, db)));
    }
    if dv && diff_fits(da, db) {
        assert(dim_fold(fs, 1, da) == dim_fold(fs, 2, diff_dims(da, db)));
    }
}


/// The superscript character of the decimal digit `n` (Unicode's
/// superscript one, two and three, and U+2070, U+2074..U+2079 for the rest).
pub open spec fn superscript(n: int) -> char {
    if n == 0 {
        '\u{2070}'
    } else if n == 1 {
        '\u{00B9}'
    } else if n == 2 {
        '\u{00B2}'
    } else if n == 3 {
        '\u{00B3}'
    } else if n == 4 {
        '\u{2074}'
    } else if n == 5 {
        '\u{2075}'
    } else if n == 6 {
        '\u{2076}'
    } else if n == 7 {
        '\u{2077}'
    } else if n == 8 {
        '\u{2078}'
    } else {
        '\u{2079}'
    }
}

proof fn lemma_superscript(n: int)
    requires
        0 <= n <= 9,
    ensures
        is_sup(superscript(n)),
        superscript(n) != '\u{207B}',
        superscript(n) != '^',
        sup_digit(superscript(n)) is Some,
        digits_value(seq![sup_digit(superscript(n))->Some_0]) == n,
        !atom_char(superscript(n)),
        !symbol_char(superscript(n)),
        !crate::text::white_space(superscript(n)),
{
    let d = sup_digit(superscript(n))->Some_0;
    assert(seq![d].drop_last() =~= Seq::<char>::empty());
    assert(seq![d].last() == d);
    assert(digits_value(Seq::<char>::empty()) == 0);
    assert(digits_value(seq![d]) == d as int - '0' as int);
    assert(d as int - '0' as int == n);
}

/// A superscript digit after a unit atom is that digit's power, and a
/// superscript minus before it makes the power negative.
pub proof fn law_superscript_exponent(s: Seq<char>, i: int, n: int)
    requires
        0 <= n <= 9,
        0 <= i < s.len(),
    ensures
        s[i] == superscript(n) && (i + 1 == s.len() || !is_sup(s[i + 1])) ==> exponent_at(s, i) == (n, i + 1),
        i + 1 < s.len() && s[i] == '\u{207B}' && s[i + 1] == superscript(n) && (i + 2 == s.len() || !is_sup(
            s[i + 2],
        )) ==> exponent_at(s, i) == (-n, i + 2),
{
    lemma_superscript(n);
    let d = sup_digit(superscript(n))->Some_0;
    if s[i] == superscript(n) && (i + 1 == s.len() || !is_sup(s[i + 1])) {
        assert(sup_end(s, i + 1) == i + 1);
        assert(sup_end(s, i) == i + 1);
        assert(sup_digits(s, i, i) =~= Seq::<char>::empty());
        assert(sup_digits(s, i, i + 1) =~= seq![d]);
        assert(!sup_minus(s, i, i));
        assert(!sup_minus(s, i, i + 1));
    }
    if i + 1 < s.len() && s[i] == '\u{207B}' && s[i + 1] == superscript(n) && (i + 2 == s.len() || !is_sup(
        s[i + 2],
    )) {
        assert(sup_end(s, i + 2) == i + 2);
        assert(sup_end(s, i + 1) == i + 2);
        assert(sup_end(s, i) == i + 2);
        assert(sup_digit(s[i]) is None);
        assert(sup_digits(s, i, i) =~= Seq::<char>::empty());
        assert(sup_digits(s, i, i + 1) =~= Seq::<char>::empty());
        assert(sup_digits(s, i, i + 2) =~= seq![d]);
        assert(sup_minus(s, i, i + 1));
        assert(sup_minus(s, i, i + 2));
    }
}

/// An atom followed by one superscript digit is that atom to that power:
/// `mm³` is cubic millimetres, with the dimension of `mm` three times.
pub proof fn law_atom_to_superscript_power(a: Seq<char>, k: int, n: int)
    requires
        find_atom(a) == Some(k),
        0 <= n <= 9,
    ensures
        unit_spec(a + seq![superscript(n)]) == Some(seq![(k, n, false)]),
        scale_fits(atom_table()[k].1, n) ==> unit_dim_spec(a + seq![superscript(n)]) == Some(
            sum_dims(dims_none(), scale_dims(atom_table()[k].1, n)),
        ),
{
    lemma_symbol_chars(a, k);
    lemma_superscript(n);
    let c = superscript(n);
    let s = a + seq![c];
    let na = a.len() as int;
    let m = s.len() as int;
    assert(m == na + 1);
    assert(s[na] == c);
    assert forall|q: int| 0 <= q < na implies #[trigger] s[q] == a[q] by {}
    assert forall|q: int| 0 <= q < na implies atom_char(#[trigger] s[q]) by {
        assert(symbol_char(a[q]));
    }
    assert(!crate::text::white_space(s[0])) by {
        assert(symbol_char(a[0]));
    }
    assert(crate::text::trim_lo(s, 0) == 0);
    assert(crate::text::trim_hi(s, m) == m);
    assert(trim_spec(s) =~= s);
    lemma_not_a_symbol(s, na);
    lemma_atom_end_at(s, 1, na);
    law_superscript_exponent(s, na, n);
    assert(exponent_at(s, na) == (n, m));
    assert(s.subrange(0, na) =~= a);
    assert(utoks(s, m) == Some(Seq::<SUTok>::empty()));
    let ts = seq![SUTok::Atom(a, n)];
    assert(utoks(s, 0) == Some(ts)) by {
        assert(seq![SUTok::Atom(a, n)] + Seq::<SUTok>::empty() =~= ts);
    }
    assert(unit_factors(ts, 1, false) == Some(Seq::<SFactor>::empty()));
    let fs = seq![(k, n, false)];
    assert(unit_factors(ts, 0, false) == Some(fs)) by {
        assert(seq![(k, n, false)] + Seq::<SFactor>::empty() =~= fs);
    }
    let da = atom_table()[k].1;
    if scale_fits(da, n) {
        assert(fs[0] == (k, n, false));
        let x = scale_dims(da, n);
        assert(sum_fits(dims_none(), x)) by {
            assert(dims_none().len() == 7);
        }
        assert(dim_fold(fs, 1, sum_dims(dims_none(), x)) == Some(sum_dims(dims_none(), x)));
    }
}

}
