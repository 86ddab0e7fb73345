//! Canonical decimal representation of the non-negative integers that the
//! protocol carries on the wire: scalars and group elements both travel as
//! base-10 ASCII strings with no leading zeros.

use vstd::prelude::*;
use vstd::string::StrSliceExecFns;

verus! {

/// A digit character, `'0'` through `'9'`.
pub open spec fn is_dec_digit(c: char) -> bool {
    48 <= c as int <= 57
}

/// A non-empty string of decimal digits.
pub open spec fn is_dec_string(s: Seq<char>) -> bool {
    s.len() > 0 && forall|i: int| 0 <= i < s.len() ==> is_dec_digit(#[trigger] s[i])
}

/// A canonical decimal string: non-empty digits with no leading zero,
/// except the single digit `"0"` itself.
pub open spec fn is_canonical(s: Seq<char>) -> bool {
    is_dec_string(s) && (s.len() == 1 || s[0] != '0')
}

/// The integer a string of decimal digits denotes.
pub open spec fn dec_val(s: Seq<char>) -> int
    decreases s.len(),
{
    if s.len() == 0 {
        0
    } else {
        dec_val(s.drop_last()) * 10 + (s.last() as int - 48)
    }
}

/// `10^n`.
pub open spec fn pow10(n: nat) -> int
    decreases n,
{
    if n == 0 {
        1
    } else {
        10 * pow10((n - 1) as nat)
    }
}

pub proof fn lemma_pow10_positive(n: nat)
    ensures
        pow10(n) >= 1,
    decreases n,
{
    if n > 0 {
        lemma_pow10_positive((n - 1) as nat);
    }
}

pub proof fn lemma_pow10_increases(m: nat, n: nat)
    requires
        m <= n,
    ensures
        pow10(m) <= pow10(n),
    decreases n,
{
    if m < n {
        lemma_pow10_increases(m, (n - 1) as nat);
        lemma_pow10_positive((n - 1) as nat);
    }
}

/// Every digit string denotes a value in `[0, 10^len)`.
pub proof fn lemma_dec_val_bounds(s: Seq<char>)
    requires
        forall|i: int| 0 <= i < s.len() ==> is_dec_digit(#[trigger] s[i]),
    ensures
        0 <= dec_val(s) < pow10(s.len()),
    decreases s.len(),
{
    if s.len() > 0 {
        lemma_dec_val_bounds(s.drop_last());
    }
}

/// A canonical string of length `n` denotes a value of at least `10^(n-1)`;
/// together with the upper bound this makes the length a function of the value.
pub proof fn lemma_dec_val_canonical_lower(s: Seq<char>)
    requires
        is_dec_string(s),
        s[0] != '0',
    ensures
        dec_val(s) >= pow10((s.len() - 1) as nat),
    decreases s.len(),
{
    if s.len() == 1 {
        assert(s.last() == s[0]);
        assert('0' as int == 48);
        assert(s.last() != '0');
        assert(s.last() as int != 48);
        assert(s.drop_last().len() == 0);
        assert(dec_val(s.drop_last()) == 0);
        assert(dec_val(s) == s.last() as int - 48);
    } else {
        let t = s.drop_last();
        assert(forall|i: int| 0 <= i < t.len() ==> is_dec_digit(#[trigger] t[i])) by {
            assert(forall|i: int| 0 <= i < t.len() ==> t[i] == s[i]);
        }
        assert(t[0] == s[0]);
        lemma_dec_val_canonical_lower(t);
        assert(is_dec_digit(s.last()));
        assert(dec_val(s) == dec_val(t) * 10 + (s.last() as int - 48));
        assert(pow10((s.len() - 1) as nat) == 10 * pow10((s.len() - 2) as nat));
        assert(dec_val(t) * 10 >= pow10((s.len() - 2) as nat) * 10);
    }
}

/// Two canonical digit strings with the same value are the same string.
pub proof fn lemma_canonical_injective(a: Seq<char>, b: Seq<char>)
    requires
        is_canonical(a),
        is_canonical(b),
        dec_val(a) == dec_val(b),
    ensures
        a == b,
{
    lemma_same_length(a, b);
    lemma_digits_injective_same_len(a, b);
}

proof fn lemma_same_length(a: Seq<char>, b: Seq<char>)
    requires
        is_canonical(a),
        is_canonical(b),
        dec_val(a) == dec_val(b),
    ensures
        a.len() == b.len(),
{
    lemma_dec_val_bounds(a);
    lemma_dec_val_bounds(b);
    if a.len() < b.len() {
        lemma_canonical_length_value(a, b);
    }
    if b.len() < a.len() {
        lemma_canonical_length_value(b, a);
    }
}

proof fn lemma_canonical_length_value(a: Seq<char>, b: Seq<char>)
    requires
        is_canonical(a),
        is_canonical(b),
        a.len() < b.len(),
    ensures
        dec_val(a) < dec_val(b),
{
    lemma_dec_val_bounds(a);
    if b.len() == 1 {
        // impossible: a would be empty
        assert(a.len() == 0);
        assert(false);
    } else {
        lemma_dec_val_canonical_lower(b);
        lemma_pow10_increases(a.len(), (b.len() - 1) as nat);
    }
}

proof fn lemma_digits_injective_same_len(a: Seq<char>, b: Seq<char>)
    requires
        is_dec_string(a) || a.len() == 0,
        is_dec_string(b) || b.len() == 0,
        forall|i: int| 0 <= i < a.len() ==> is_dec_digit(#[trigger] a[i]),
        forall|i: int| 0 <= i < b.len() ==> is_dec_digit(#[trigger] b[i]),
        a.len() == b.len(),
        dec_val(a) == dec_val(b),
    ensures
        a == b,
    decreases a.len(),
{
    if a.len() == 0 {
        assert(a =~= b);
    } else {
        let da = a.last() as int - 48;
        let db = b.last() as int - 48;
        lemma_dec_val_bounds(a.drop_last());
        lemma_dec_val_bounds(b.drop_last());
        assert(0 <= da < 10);
        assert(0 <= db < 10);
        // value mod 10 determines the last digit, value / 10 the rest
        assert(da == db && dec_val(a.drop_last()) == dec_val(b.drop_last())) by {
            let va = dec_val(a.drop_last());
            let vb = dec_val(b.drop_last());
            assert(va * 10 + da == vb * 10 + db);
            if va < vb {
                assert(va * 10 + da < vb * 10 + db) by (nonlinear_arith)
                    requires va < vb && da < 10 && db >= 0;
            }
            if vb < va {
                assert(vb * 10 + db < va * 10 + da) by (nonlinear_arith)
                    requires vb < va && db < 10 && da >= 0;
            }
        }
        lemma_digits_injective_same_len(a.drop_last(), b.drop_last());
        assert(a.last() as int == b.last() as int);
        assert(a.last() == b.last());
        assert(a =~= a.drop_last().push(a.last()));
        assert(b =~= b.drop_last().push(b.last()));
    }
}

/// Splitting a digit string at `k` splits its value positionally.
pub proof fn lemma_dec_val_split(s: Seq<char>, k: int)
    requires
        0 <= k <= s.len(),
    ensures
        dec_val(s) == dec_val(s.subrange(0, k)) * pow10((s.len() - k) as nat) + dec_val(
            s.subrange(k, s.len() as int),
        ),
    decreases s.len() - k,
{
    if k == s.len() {
        assert(s.subrange(0, k) =~= s);
        assert(s.subrange(k, s.len() as int) =~= Seq::<char>::empty());
    } else {
        let n = s.len() as int;
        lemma_dec_val_split(s.drop_last(), k);
        assert(s.drop_last().subrange(0, k) =~= s.subrange(0, k));
        assert(s.drop_last().subrange(k, n - 1) =~= s.subrange(k, n).drop_last());
        assert(s.subrange(k, n).last() == s.last());
        let hi = dec_val(s.subrange(0, k));
        let mid = dec_val(s.subrange(k, n).drop_last());
        let d = s.last() as int - 48;
        assert(dec_val(s) == (hi * pow10((n - 1 - k) as nat) + mid) * 10 + d);
        assert((hi * pow10((n - 1 - k) as nat) + mid) * 10 == hi * (10 * pow10((n - 1 - k) as nat))
            + mid * 10) by (nonlinear_arith);
        assert(pow10((n - k) as nat) == 10 * pow10((n - 1 - k) as nat));
    }
}


/// The canonical form of a digit string: leading zeros dropped, a single
/// zero kept.
pub open spec fn canon_of(s: Seq<char>) -> Seq<char>
    decreases s.len(),
{
    if s.len() <= 1 {
        s
    } else if s[0] == '0' {
        canon_of(s.drop_first())
    } else {
        s
    }
}

/// On a suffix past leading zeros, the canonical form is that suffix.
proof fn lemma_canon_of_subrange(s: Seq<char>, k: int)
    requires
        0 <= k < s.len(),
        forall|j: int| 0 <= j < k ==> s[j] == '0',
        k == s.len() - 1 || s[k] != '0',
    ensures
        canon_of(s) == s.subrange(k, s.len() as int),
    decreases k,
{
    if k == 0 {
        if s.len() <= 1 {
            assert(s.subrange(0, s.len() as int) =~= s);
        } else {
            assert(s[0] != '0');
            assert(s.subrange(0, s.len() as int) =~= s);
        }
    } else {
        assert(s[0] == '0');
        assert(s.len() > 1);
        let t = s.drop_first();
        assert(forall|j: int| 0 <= j < k - 1 ==> t[j] == '0');
        lemma_canon_of_subrange(t, k - 1);
        assert(t.subrange(k - 1, t.len() as int) =~= s.subrange(k, s.len() as int));
    }
}

/// Canonical digits are their own canonical form.
pub proof fn lemma_canon_identity(s: Seq<char>)
    requires
        is_canonical(s),
    ensures
        canon_of(s) == s,
{
}

/// An error for when a conversion fails.
#[derive(Debug)]
pub struct ConversionError;

/// Validates that `s` is all decimal digits and returns its characters.
fn read_digits(s: &str) -> (r: Result<Vec<char>, ConversionError>)
    ensures
        r is Ok <==> is_dec_string(s@),
        r matches Ok(v) ==> v@ == s@,
{
    let n = s.unicode_len();
    if n == 0 {
        return Err(ConversionError);
    }
    let mut v: Vec<char> = Vec::new();
    let mut i: usize = 0;
    while i < n
        invariant
            n == s@.len(),
            0 <= i <= n,
            v@ == s@.subrange(0, i as int),
            forall|j: int| 0 <= j < i ==> is_dec_digit(#[trigger] s@[j]),
        decreases n - i,
    {
        let c = s.get_char(i);
        if c < '0' || c > '9' {
            return Err(ConversionError);
        }
        proof {
            assert('0' as int == 48 && '9' as int == 57);
        }
        v.push(c);
        i += 1;
        proof {
            assert(v@ =~= s@.subrange(0, i as int));
        }
    }
    proof {
        assert(v@ =~= s@);
    }
    Ok(v)
}

/// Drops leading zeros, keeping a single `'0'` when the value is zero.
fn canonicalize(v: Vec<char>) -> (r: Vec<char>)
    requires
        is_dec_string(v@),
    ensures
        is_canonical(r@),
        dec_val(r@) == dec_val(v@),
        r@ == canon_of(v@),
{
    let n = v.len();
    let mut i: usize = 0;
    while i < n - 1 && v[i] == '0'
        invariant
            is_dec_string(v@),
            n == v@.len(),
            0 <= i < n,
            forall|j: int| 0 <= j < i ==> v@[j] == '0',
        decreases n - i,
    {
        i += 1;
    }
    let mut r: Vec<char> = Vec::new();
    let mut j: usize = i;
    while j < n
        invariant
            is_dec_string(v@),
            n == v@.len(),
            0 <= i <= j <= n,
            i < n,
            r@ == v@.subrange(i as int, j as int),
        decreases n - j,
    {
        r.push(v[j]);
        j += 1;
        proof {
            assert(r@ =~= v@.subrange(i as int, j as int));
        }
    }
    proof {
        assert(r@ =~= v@.subrange(i as int, n as int));
        lemma_zero_prefix_value(v@, i as int);
        if r@.len() > 1 {
            assert(r@[0] == v@[i as int]);
        }
        lemma_canon_of_subrange(v@, i as int);
    }
    r
}

/// Leading zeros do not change the value.
proof fn lemma_zero_prefix_value(s: Seq<char>, k: int)
    requires
        0 <= k <= s.len(),
        forall|j: int| 0 <= j < k ==> s[j] == '0',
        forall|i: int| 0 <= i < s.len() ==> is_dec_digit(#[trigger] s[i]),
    ensures
        dec_val(s.subrange(k, s.len() as int)) == dec_val(s),
{
    lemma_dec_val_split(s, k);
    lemma_all_zeros_value(s.subrange(0, k));
    lemma_pow10_positive((s.len() - k) as nat);
}

proof fn lemma_all_zeros_value(s: Seq<char>)
    requires
        forall|j: int| 0 <= j < s.len() ==> s[j] == '0',
    ensures
        dec_val(s) == 0,
    decreases s.len(),
{
    if s.len() > 0 {
        lemma_all_zeros_value(s.drop_last());
        assert(s.last() == '0');
        assert('0' as u32 == 48);
    }
}

/// Compares two canonical digit strings by value: shorter means smaller,
/// and equal lengths compare lexicographically.
fn dec_lt(a: &Vec<char>, b: &Vec<char>) -> (r: bool)
    requires
        is_canonical(a@),
        is_canonical(b@),
    ensures
        r == (dec_val(a@) < dec_val(b@)),
{
    let na = a.len();
    let nb = b.len();
    if na < nb {
        proof {
            lemma_canonical_length_value(a@, b@);
        }
        return true;
    }
    if nb < na {
        proof {
            lemma_canonical_length_value(b@, a@);
        }
        return false;
    }
    let mut i: usize = 0;
    while i < na
        invariant
            is_canonical(a@),
            is_canonical(b@),
            na == a@.len() == b@.len(),
            0 <= i <= na,
            forall|j: int| 0 <= j < i ==> a@[j] == b@[j],
        decreases na - i,
    {
        let ca = a[i];
        let cb = b[i];
        if ca < cb {
            proof {
                lemma_lex_lt(a@, b@, i as int);
            }
            return true;
        }
        if cb < ca {
            proof {
                lemma_lex_lt(b@, a@, i as int);
            }
            return false;
        }
        i += 1;
    }
    proof {
        assert(a@ =~= b@);
    }
    false
}

/// With a common prefix of length `i` and `a[i] < b[i]`, the value of `a`
/// is below the value of `b`.
proof fn lemma_lex_lt(a: Seq<char>, b: Seq<char>, i: int)
    requires
        is_dec_string(a),
        is_dec_string(b),
        a.len() == b.len(),
        0 <= i < a.len(),
        forall|j: int| 0 <= j < i ==> a[j] == b[j],
        (a[i] as int) < (b[i] as int),
    ensures
        dec_val(a) < dec_val(b),
{
    let n = a.len() as int;
    lemma_dec_val_split(a, i + 1);
    lemma_dec_val_split(b, i + 1);
    let pa = a.subrange(0, i + 1);
    let pb = b.subrange(0, i + 1);
    assert(pa.drop_last() =~= pb.drop_last()) by {
        assert(a.subrange(0, i) =~= b.subrange(0, i));
        assert(pa.drop_last() =~= a.subrange(0, i));
        assert(pb.drop_last() =~= b.subrange(0, i));
    }
    assert(dec_val(pa) + 1 <= dec_val(pb));
    let ta = a.subrange(i + 1, n);
    let tb = b.subrange(i + 1, n);
    lemma_dec_val_bounds(ta);
    lemma_dec_val_bounds(tb);
    let w = pow10((n - i - 1) as nat);
    lemma_pow10_positive((n - i - 1) as nat);
    assert(dec_val(pa) * w + w <= dec_val(pb) * w) by (nonlinear_arith)
        requires
            dec_val(pa) + 1 <= dec_val(pb),
            w >= 1,
    ;
}


/// A canonical string denotes zero exactly when it is `"0"`.
pub proof fn lemma_canonical_zero(s: Seq<char>)
    requires
        is_canonical(s),
    ensures
        (dec_val(s) == 0) == (s =~= seq!['0']),
{
    if s.len() == 1 {
        assert(s.drop_last().len() == 0);
        assert(dec_val(s.drop_last()) == 0);
        assert(dec_val(s) == s.last() as int - 48);
        assert(s.last() == s[0]);
        assert('0' as int == 48);
        if dec_val(s) == 0 {
            assert(s[0] as int == 48);
            assert(s[0] == '0');
        }
        if s =~= seq!['0'] {
            assert(s[0] == '0');
        }
    } else {
        assert(s[0] != '0');
        lemma_dec_val_canonical_lower(s);
        lemma_pow10_positive((s.len() - 1) as nat);
    }
}

/// Builds the string holding exactly the given characters.
/// Relies on `String`'s `FromIterator` implementation: collecting characters
/// yields the string of those characters in order.
#[verifier::external_body]
pub(crate) fn chars_to_string(v: &Vec<char>) -> (r: String)
    ensures
        r@ == v@,
{
    v.iter().collect()
}

/// The character for a single decimal digit.
fn digit_char(d: u32) -> (c: char)
    requires
        d < 10,
    ensures
        c as int == d + 48,
        is_dec_digit(c),
{
    match d {
        0 => '0',
        1 => '1',
        2 => '2',
        3 => '3',
        4 => '4',
        5 => '5',
        6 => '6',
        7 => '7',
        8 => '8',
        _ => '9',
    }
}

/// The canonical digits of a machine integer.
fn u32_to_digits(n: u32) -> (r: Vec<char>)
    ensures
        is_canonical(r@),
        dec_val(r@) == n,
    decreases n,
{
    if n < 10 {
        let c = digit_char(n);
        let mut v: Vec<char> = Vec::new();
        v.push(c);
        proof {
            assert(v@ =~= seq![c]);
            assert(v@.drop_last().len() == 0);
            assert(dec_val(v@.drop_last()) == 0);
        }
        v
    } else {
        let mut v = u32_to_digits(n / 10);
        let c = digit_char(n % 10);
        let ghost w = v@;
        v.push(c);
        proof {
            assert(v@.drop_last() =~= w);
            assert(v@.last() == c);
            assert(dec_val(v@) == dec_val(w) * 10 + (n % 10));
            assert(dec_val(w) == n / 10);
            assert(n / 10 >= 1);
            lemma_canonical_zero(w);
            assert(!(w =~= seq!['0']));
            if w.len() == 1 {
                assert(w[0] != '0') by {
                    if w[0] == '0' {
                        assert(w =~= seq!['0']);
                    }
                }
            }
            assert(v@[0] == w[0]);
        }
        v
    }
}

/// Compares two character vectors for equality.
fn digits_eq(a: &Vec<char>, b: &Vec<char>) -> (r: bool)
    ensures
        r == (a@ == b@),
{
    if a.len() != b.len() {
        return false;
    }
    let n = a.len();
    let mut i: usize = 0;
    while i < n
        invariant
            n == a@.len() == b@.len(),
            0 <= i <= n,
            forall|j: int| 0 <= j < i ==> a@[j] == b@[j],
        decreases n - i,
    {
        if a[i] != b[i] {
            return false;
        }
        i += 1;
    }
    proof {
        assert(a@ =~= b@);
    }
    true
}


/// Compares two strings character by character.
pub fn str_eq(a: &str, b: &str) -> (r: bool)
    ensures
        r == (a@ == b@),
{
    let na = a.unicode_len();
    let nb = b.unicode_len();
    if na != nb {
        return false;
    }
    let mut i: usize = 0;
    while i < na
        invariant
            na == a@.len() == b@.len(),
            0 <= i <= na,
            forall|j: int| 0 <= j < i ==> a@[j] == b@[j],
        decreases na - i,
    {
        if a.get_char(i) != b.get_char(i) {
            return false;
        }
        i += 1;
    }
    proof {
        assert(a@ =~= b@);
    }
    true
}

/// A scalar value: a non-negative integer carried as canonical decimal digits.
#[derive(Debug, PartialEq, Eq)]
pub struct Scalar {
    digits: Vec<char>,
}

/// An element value: a group element carried as canonical decimal digits.
#[derive(Debug, PartialEq, Eq)]
pub struct Element {
    digits: Vec<char>,
}

impl View for Scalar {
    type V = Seq<char>;

    closed spec fn view(&self) -> Seq<char> {
        self.digits@
    }
}

impl View for Element {
    type V = Seq<char>;

    closed spec fn view(&self) -> Seq<char> {
        self.digits@
    }
}

impl Scalar {
    /// Every scalar holds canonical digits.
    #[verifier::type_invariant]
    pub open spec fn inv(&self) -> bool {
        is_canonical(self@)
    }

    /// The integer this scalar denotes.
    pub open spec fn value(&self) -> int {
        dec_val(self@)
    }

    /// Parses a base-10 string of digits; any other string is rejected.
    pub fn parse(s: &str) -> (r: Result<Scalar, ConversionError>)
        ensures
            r is Ok <==> is_dec_string(s@),
            r matches Ok(v) ==> is_canonical(v@) && v.value() == dec_val(s@) && v@ == canon_of(
                s@,
            ),
    {
        match read_digits(s) {
            Ok(d) => Ok(Scalar { digits: canonicalize(d) }),
            Err(e) => Err(e),
        }
    }

    /// The canonical decimal rendering of this scalar.
    pub fn to_string(&self) -> (r: String)
        ensures
            r@ == self@,
    {
        chars_to_string(&self.digits)
    }

    /// The scalar for a machine integer.
    pub fn from_u32(n: u32) -> (r: Scalar)
        ensures
            is_canonical(r@),
            r.value() == n,
    {
        Scalar { digits: u32_to_digits(n) }
    }

    /// The scalar zero.
    pub fn zero() -> (r: Scalar)
        ensures
            is_canonical(r@),
            r.value() == 0,
    {
        Scalar::from_u32(0)
    }

    /// The scalar one.
    pub fn one() -> (r: Scalar)
        ensures
            is_canonical(r@),
            r.value() == 1,
    {
        Scalar::from_u32(1)
    }

    /// Whether this scalar is zero.
    pub fn is_zero(&self) -> (r: bool)
        ensures
            r == (self.value() == 0),
    {
        proof {
            use_type_invariant(self);
        }
        let z = Scalar::zero();
        let r = digits_eq(&self.digits, &z.digits);
        proof {
            lemma_canonical_zero(self@);
            lemma_canonical_zero(z@);
            if self.value() == 0 {
                assert(self@ =~= z@);
            }
            if self@ == z@ {
                assert(dec_val(self@) == dec_val(z@));
            }
        }
        r
    }

    /// Value equality; on canonical digits this is digit equality.
    pub fn same(&self, other: &Scalar) -> (r: bool)
        ensures
            r == (self.value() == other.value()),
            r == (self@ == other@),
    {
        proof {
            use_type_invariant(self);
            use_type_invariant(other);
            if self.value() == other.value() {
                lemma_canonical_injective(self@, other@);
            }
        }
        digits_eq(&self.digits, &other.digits)
    }

    /// Strict numeric order.
    pub fn lt(&self, other: &Scalar) -> (r: bool)
        ensures
            r == (self.value() < other.value()),
    {
        proof {
            use_type_invariant(self);
            use_type_invariant(other);
        }
        dec_lt(&self.digits, &other.digits)
    }
}

impl Element {
    /// Every element holds canonical digits.
    #[verifier::type_invariant]
    pub open spec fn inv(&self) -> bool {
        is_canonical(self@)
    }

    /// The integer this element denotes.
    pub open spec fn value(&self) -> int {
        dec_val(self@)
    }

    /// Parses a base-10 string of digits; any other string is rejected.
    pub fn parse(s: &str) -> (r: Result<Element, ConversionError>)
        ensures
            r is Ok <==> is_dec_string(s@),
            r matches Ok(v) ==> is_canonical(v@) && v.value() == dec_val(s@) && v@ == canon_of(
                s@,
            ),
    {
        match read_digits(s) {
            Ok(d) => Ok(Element { digits: canonicalize(d) }),
            Err(e) => Err(e),
        }
    }

    /// The canonical decimal rendering of this element.
    pub fn to_string(&self) -> (r: String)
        ensures
            r@ == self@,
    {
        chars_to_string(&self.digits)
    }

    /// The element for a machine integer.
    pub fn from_u32(n: u32) -> (r: Element)
        ensures
            is_canonical(r@),
            r.value() == n,
    {
        Element { digits: u32_to_digits(n) }
    }

    /// The element zero.
    pub fn zero() -> (r: Element)
        ensures
            is_canonical(r@),
            r.value() == 0,
    {
        Element::from_u32(0)
    }

    /// The element one.
    pub fn one() -> (r: Element)
        ensures
            is_canonical(r@),
            r.value() == 1,
    {
        Element::from_u32(1)
    }

    /// Whether this element is zero.
    pub fn is_zero(&self) -> (r: bool)
        ensures
            r == (self.value() == 0),
    {
        proof {
            use_type_invariant(self);
        }
        let z = Element::zero();
        let r = digits_eq(&self.digits, &z.digits);
        proof {
            lemma_canonical_zero(self@);
            lemma_canonical_zero(z@);
            if self.value() == 0 {
                assert(self@ =~= z@);
            }
            if self@ == z@ {
                assert(dec_val(self@) == dec_val(z@));
            }
        }
        r
    }

    /// Value equality; on canonical digits this is digit equality.
    pub fn same(&self, other: &Element) -> (r: bool)
        ensures
            r == (self.value() == other.value()),
            r == (self@ == other@),
    {
        proof {
            use_type_invariant(self);
            use_type_invariant(other);
            if self.value() == other.value() {
                lemma_canonical_injective(self@, other@);
            }
        }
        digits_eq(&self.digits, &other.digits)
    }

    /// Strict numeric order.
    pub fn lt(&self, other: &Element) -> (r: bool)
        ensures
            r == (self.value() < other.value()),
    {
        proof {
            use_type_invariant(self);
            use_type_invariant(other);
        }
        dec_lt(&self.digits, &other.digits)
    }
}

impl Clone for Scalar {
    /// A clone carries the same digits.
    fn clone(&self) -> (r: Self)
        ensures
            r@ == self@,
    {
        proof {
            use_type_invariant(self);
        }
        let r = Scalar { digits: clone_digits(&self.digits) };
        proof {
            assert(r@ == self@);
        }
        r
    }
}

impl Clone for Element {
    /// A clone carries the same digits.
    fn clone(&self) -> (r: Self)
        ensures
            r@ == self@,
    {
        proof {
            use_type_invariant(self);
        }
        let r = Element { digits: clone_digits(&self.digits) };
        proof {
            assert(r@ == self@);
        }
        r
    }
}

/// Copies a character vector.
fn clone_digits(v: &Vec<char>) -> (r: Vec<char>)
    ensures
        r@ == v@,
{
    let n = v.len();
    let mut r: Vec<char> = Vec::new();
    let mut i: usize = 0;
    while i < n
        invariant
            n == v@.len(),
            0 <= i <= n,
            r@ == v@.subrange(0, i as int),
        decreases n - i,
    {
        r.push(v[i]);
        i += 1;
        proof {
            assert(r@ =~= v@.subrange(0, i as int));
        }
    }
    proof {
        assert(r@ =~= v@);
    }
    r
}

/// Round trip: rendering a scalar and parsing the result gives the scalar back.
/// The rendering of a canonical value is the value's own digits, and parsing
/// canonical digits changes nothing.
pub proof fn lemma_parse_to_string_round_trip(s: Seq<char>)
    requires
        is_canonical(s),
    ensures
        is_dec_string(s),
        dec_val(s) >= 0,
        forall|t: Seq<char>| is_canonical(t) && dec_val(t) == dec_val(s) ==> t == s,
{
    lemma_dec_val_bounds(s);
    assert forall|t: Seq<char>| is_canonical(t) && dec_val(t) == dec_val(s) implies t == s by {
        lemma_canonical_injective(t, s);
    }
}

} // verus!
