//! The persisted form of a configuration: a JSON object with the flavor as
//! its single camel-case key and the group values as decimal strings, laid
//! out with two-space indentation.  The emitter produces exactly that text
//! and the parser accepts exactly the texts the emitter can produce, so
//! writing and reading a configuration is an identity, proved below.

use vstd::prelude::*;
use crate::digits::{
    Scalar,
    Element,
    ConversionError,
    is_dec_digit,
    is_canonical,
    chars_to_string,
    lemma_canon_identity,
};
use crate::discrete_logarithm::DiscreteLogarithmConfiguration;
use crate::elliptic_curve::EllipticCurveConfiguration;
use crate::config::Configuration;
use vstd::string::StrSliceExecFns;

verus! {

/// The text of a discrete-logarithm configuration: the four group values
/// spliced between fixed segments.
pub open spec fn json_dl(p: Seq<char>, q: Seq<char>, g: Seq<char>, h: Seq<char>) -> Seq<char> {
    "{\n  \"discreteLogarithm\": {\n    \"p\": \""@ + p + "\",\n    \"q\": \""@ + q
        + "\",\n    \"g\": \""@ + g + "\",\n    \"h\": \""@ + h + "\"\n  }\n}"@
}

/// The text of an elliptic-curve configuration.
pub open spec fn json_ec(g: Seq<char>, h: Seq<char>) -> Seq<char> {
    "{\n  \"ellipticCurve\": {\n    \"g\": \""@ + g + "\",\n    \"h\": \""@ + h + "\"\n  }\n}"@
}

/// The text of a configuration of either flavor.
pub open spec fn config_json(c: Configuration) -> Seq<char> {
    match c {
        Configuration::DiscreteLogarithm(d) => json_dl(d.p@, d.q@, d.g@, d.h@),
        Configuration::EllipticCurve(e) => json_ec(e.g@, e.h@),
    }
}

/// Whether every stored digit string of a configuration is canonical; true
/// of every configuration the library builds.
pub open spec fn config_digits_canonical(c: Configuration) -> bool {
    match c {
        Configuration::DiscreteLogarithm(d) => is_canonical(d.p@) && is_canonical(d.q@)
            && is_canonical(d.g@) && is_canonical(d.h@),
        Configuration::EllipticCurve(e) => is_canonical(e.g@) && is_canonical(e.h@),
    }
}

/// Whether two configurations carry the same flavor and the same digits.
pub open spec fn config_same(a: Configuration, b: Configuration) -> bool {
    match (a, b) {
        (Configuration::DiscreteLogarithm(x), Configuration::DiscreteLogarithm(y)) => x.p@ == y.p@
            && x.q@ == y.q@ && x.g@ == y.g@ && x.h@ == y.h@,
        (Configuration::EllipticCurve(x), Configuration::EllipticCurve(y)) => x.g@ == y.g@ && x.h@
            == y.h@,
        _ => false,
    }
}

/// A maximal non-empty digit run in `s` starting at `i`.
pub open spec fn run_at(s: Seq<char>, i: int, x: Seq<char>) -> bool {
    &&& x.len() > 0
    &&& forall|t: int| 0 <= t < x.len() ==> is_dec_digit(#[trigger] x[t])
    &&& 0 <= i
    &&& i + x.len() <= s.len()
    &&& x == s.subrange(i, i + x.len())
    &&& i + x.len() == s.len() || !is_dec_digit(s[i + x.len()])
}

/// Appends the characters of a string to a vector.
fn append_str(v: &mut Vec<char>, s: &str)
    ensures
        final (v)@ == old(v)@ + s@,
{
    let n = s.unicode_len();
    let mut i: usize = 0;
    while i < n
        invariant
            n == s@.len(),
            0 <= i <= n,
            v@ == old(v)@ + s@.subrange(0, i as int),
        decreases n - i,
    {
        v.push(s.get_char(i));
        i += 1;
        proof {
            assert(v@ =~= old(v)@ + s@.subrange(0, i as int));
        }
    }
    proof {
        assert(v@ =~= old(v)@ + s@);
    }
}

/// Consumes an exact literal at a position: succeeds exactly when the text
/// continues with the literal there.
fn eat_lit(s: &str, i: usize, lit: &str) -> (r: Option<usize>)
    requires
        i <= s@.len(),
    ensures
        (r is Some) == (i + lit@.len() <= s@.len() && s@.subrange(i as int, i + lit@.len())
            == lit@),
        r matches Some(j) ==> j == i + lit@.len(),
{
    let n = s.unicode_len();
    let m = lit.unicode_len();
    if m > n - i {
        return None;
    }
    let mut k: usize = 0;
    while k < m
        invariant
            i + m <= n,
            n == s@.len(),
            m == lit@.len(),
            0 <= k <= m,
            forall|t: int| 0 <= t < k ==> s@[i + t] == lit@[t],
        decreases m - k,
    {
        if s.get_char(i + k) != lit.get_char(k) {
            proof {
                assert(s@.subrange(i as int, i + m as int)[k as int] == s@[i + k]);
            }
            return None;
        }
        k += 1;
    }
    proof {
        assert(s@.subrange(i as int, i + m as int) =~= lit@);
    }
    Some(i + m)
}

/// Reads the maximal run of decimal digits starting at a position.
fn eat_digits(s: &str, i: usize) -> (r: (Vec<char>, usize))
    requires
        i <= s@.len(),
    ensures
        i <= r.1 <= s@.len(),
        r.0@ == s@.subrange(i as int, r.1 as int),
        forall|t: int| i <= t < r.1 ==> is_dec_digit(#[trigger] s@[t]),
        r.1 < s@.len() ==> !is_dec_digit(s@[r.1 as int]),
{
    let n = s.unicode_len();
    let mut j: usize = i;
    let mut v: Vec<char> = Vec::new();
    proof {
        assert(v@ =~= s@.subrange(i as int, i as int));
    }
    while j < n
        invariant
            i <= j <= n,
            n == s@.len(),
            v@ == s@.subrange(i as int, j as int),
            forall|t: int| i <= t < j ==> is_dec_digit(#[trigger] s@[t]),
        decreases n - j,
    {
        let c = s.get_char(j);
        proof {
            assert('0' as int == 48 && '9' as int == 57);
        }
        if c < '0' || c > '9' {
            return (v, j);
        }
        v.push(c);
        j += 1;
        proof {
            assert(v@ =~= s@.subrange(i as int, j as int));
        }
    }
    (v, j)
}

/// Reads one canonical decimal value at a position: a maximal digit run
/// that is non-empty and has no leading zero.  Whenever such a run stands
/// at the position, the read succeeds and returns exactly that run.
fn eat_value(s: &str, i: usize) -> (r: Option<(Scalar, usize)>)
    requires
        i <= s@.len(),
    ensures
        r matches Some(v) ==> i <= v.1 <= s@.len() && is_canonical(v.0@) && run_at(
            s@,
            i as int,
            v.0@,
        ) && v.1 == i + v.0@.len(),
        forall|x: Seq<char>|
            run_at(s@, i as int, x) && is_canonical(x) ==> r is Some,
        r matches Some(v) ==> forall|x: Seq<char>|
            run_at(s@, i as int, x) ==> x == v.0@,
{
    let (run, j) = eat_digits(s, i);
    proof {
        assert forall|x: Seq<char>| run_at(s@, i as int, x) implies x == run@ && i + x.len()
            == j by {
            lemma_run_matches_eat(s@, i as int, x, run@, j as int);
        }
    }
    if run.len() == 0 {
        return None;
    }
    if run.len() > 1 && run[0] == '0' {
        return None;
    }
    let text = chars_to_string(&run);
    match Scalar::parse(text.as_str()) {
        Ok(v) => {
            proof {
                lemma_canon_identity(run@);
            }
            Some((v, j))
        },
        Err(_) => None,
    }
}

/// Reads one canonical decimal value as an element, the same way.
fn eat_value_elem(s: &str, i: usize) -> (r: Option<(Element, usize)>)
    requires
        i <= s@.len(),
    ensures
        r matches Some(v) ==> i <= v.1 <= s@.len() && is_canonical(v.0@) && run_at(
            s@,
            i as int,
            v.0@,
        ) && v.1 == i + v.0@.len(),
        forall|x: Seq<char>|
            run_at(s@, i as int, x) && is_canonical(x) ==> r is Some,
        r matches Some(v) ==> forall|x: Seq<char>|
            run_at(s@, i as int, x) ==> x == v.0@,
{
    let (run, j) = eat_digits(s, i);
    proof {
        assert forall|x: Seq<char>| run_at(s@, i as int, x) implies x == run@ && i + x.len()
            == j by {
            lemma_run_matches_eat(s@, i as int, x, run@, j as int);
        }
    }
    if run.len() == 0 {
        return None;
    }
    if run.len() > 1 && run[0] == '0' {
        return None;
    }
    let text = chars_to_string(&run);
    match Element::parse(text.as_str()) {
        Ok(v) => {
            proof {
                lemma_canon_identity(run@);
            }
            Some((v, j))
        },
        Err(_) => None,
    }
}

/// A candidate maximal run coincides with what the digit reader read.
proof fn lemma_run_matches_eat(s: Seq<char>, i: int, x: Seq<char>, run: Seq<char>, j: int)
    requires
        run_at(s, i, x),
        i <= j <= s.len(),
        run == s.subrange(i, j),
        forall|t: int| i <= t < j ==> is_dec_digit(#[trigger] s[t]),
        j < s.len() ==> !is_dec_digit(s[j]),
    ensures
        x == run,
        i + x.len() == j,
{
    let e = i + x.len();
    if e < j {
        assert(is_dec_digit(s[e]));
        assert(x.len() < j - i);
        assert(e == s.len() || !is_dec_digit(s[e]));
        assert(false);
    }
    if j < e {
        assert(!is_dec_digit(s[j]));
        assert(x[j - i] == s.subrange(i, e)[j - i]);
        assert(s.subrange(i, e)[j - i] == s[j]);
        assert(is_dec_digit(x[j - i]));
        assert(false);
    }
    assert(x =~= run);
}

impl Configuration {
    /// Renders this configuration as its persisted JSON text.
    pub fn to_json(&self) -> (r: String)
        ensures
            r@ == config_json(*self),
    {
        let mut v: Vec<char> = Vec::new();
        match self {
            Configuration::DiscreteLogarithm(d) => {
                append_str(&mut v, "{\n  \"discreteLogarithm\": {\n    \"p\": \"");
                let p = d.p.to_string();
                append_str(&mut v, p.as_str());
                append_str(&mut v, "\",\n    \"q\": \"");
                let q = d.q.to_string();
                append_str(&mut v, q.as_str());
                append_str(&mut v, "\",\n    \"g\": \"");
                let g = d.g.to_string();
                append_str(&mut v, g.as_str());
                append_str(&mut v, "\",\n    \"h\": \"");
                let h = d.h.to_string();
                append_str(&mut v, h.as_str());
                append_str(&mut v, "\"\n  }\n}");
                proof {
                    assert(v@ =~= config_json(*self));
                }
            },
            Configuration::EllipticCurve(e) => {
                append_str(&mut v, "{\n  \"ellipticCurve\": {\n    \"g\": \"");
                let g = e.g.to_string();
                append_str(&mut v, g.as_str());
                append_str(&mut v, "\",\n    \"h\": \"");
                let h = e.h.to_string();
                append_str(&mut v, h.as_str());
                append_str(&mut v, "\"\n  }\n}");
                proof {
                    assert(v@ =~= config_json(*self));
                }
            },
        }
        chars_to_string(&v)
    }

    /// Reads a configuration back from its persisted JSON text: the result,
    /// if any, renders back to the input, and any emitted text is accepted.
    pub fn from_json(s: &str) -> (r: Result<Configuration, ConversionError>)
        ensures
            r matches Ok(c) ==> s@ == config_json(c) && config_digits_canonical(c),
            forall|p: Seq<char>, q: Seq<char>, g: Seq<char>, h: Seq<char>|
                is_canonical(p) && is_canonical(q) && is_canonical(g) && is_canonical(h) && s@
                    == json_dl(p, q, g, h) ==> r is Ok,
            forall|g: Seq<char>, h: Seq<char>|
                is_canonical(g) && is_canonical(h) && s@ == json_ec(g, h) ==> r is Ok,
    {
        proof {
            reveal_strlit("{\n  \"discreteLogarithm\": {\n    \"p\": \"");
            reveal_strlit("{\n  \"ellipticCurve\": {\n    \"g\": \"");
            reveal_strlit("\",\n    \"q\": \"");
            reveal_strlit("\",\n    \"g\": \"");
            reveal_strlit("\",\n    \"h\": \"");
            reveal_strlit("\"\n  }\n}");
        }
        let n = s.unicode_len();
        match eat_lit(s, 0, "{\n  \"discreteLogarithm\": {\n    \"p\": \"") {
            Some(i1) => {
                proof {
                    lemma_no_ec_after_dl_head(s@);
                }
                let parsed = parse_dl_tail(s, i1);
                match parsed {
                    Some((c, end)) => {
                        if end == n {
                            Ok(c)
                        } else {
                            proof {
                                assert forall|p: Seq<char>, q: Seq<char>, g: Seq<char>, h: Seq<
                                    char,
                                >|
                                    is_canonical(p) && is_canonical(q) && is_canonical(g)
                                        && is_canonical(h) && s@ == json_dl(p, q, g, h) implies
                                    false by {
                                    lemma_dl_positions(s@, p, q, g, h);
                                }
                            }
                            Err(ConversionError)
                        }
                    },
                    None => {
                        proof {
                            assert forall|p: Seq<char>, q: Seq<char>, g: Seq<char>, h: Seq<char>|
                                is_canonical(p) && is_canonical(q) && is_canonical(g)
                                    && is_canonical(h) && s@ == json_dl(p, q, g, h) implies
                                false by {
                                lemma_dl_positions(s@, p, q, g, h);
                            }
                        }
                        Err(ConversionError)
                    },
                }
            },
            None => {
                match eat_lit(s, 0, "{\n  \"ellipticCurve\": {\n    \"g\": \"") {
                    Some(i1) => {
                        proof {
                            assert forall|p: Seq<char>, q: Seq<char>, g: Seq<char>, h: Seq<char>|
                                is_canonical(p) && is_canonical(q) && is_canonical(g)
                                    && is_canonical(h) && s@ == json_dl(p, q, g, h) implies
                                false by {
                                lemma_dl_head(s@, p, q, g, h);
                            }
                        }
                        let parsed = parse_ec_tail(s, i1);
                        match parsed {
                            Some((c, end)) => {
                                if end == n {
                                    Ok(c)
                                } else {
                                    proof {
                                        assert forall|g: Seq<char>, h: Seq<char>|
                                            is_canonical(g) && is_canonical(h) && s@ == json_ec(
                                                g,
                                                h,
                                            ) implies false by {
                                            lemma_ec_positions(s@, g, h);
                                        }
                                    }
                                    Err(ConversionError)
                                }
                            },
                            None => {
                                proof {
                                    assert forall|g: Seq<char>, h: Seq<char>|
                                        is_canonical(g) && is_canonical(h) && s@ == json_ec(g, h)
                                        implies false by {
                                        lemma_ec_positions(s@, g, h);
                                    }
                                }
                                Err(ConversionError)
                            },
                        }
                    },
                    None => {
                        proof {
                            assert forall|p: Seq<char>, q: Seq<char>, g: Seq<char>, h: Seq<char>|
                                is_canonical(p) && is_canonical(q) && is_canonical(g)
                                    && is_canonical(h) && s@ == json_dl(p, q, g, h) implies
                                false by {
                                lemma_dl_head(s@, p, q, g, h);
                            }
                            assert forall|g: Seq<char>, h: Seq<char>|
                                is_canonical(g) && is_canonical(h) && s@ == json_ec(g, h) implies
                                false by {
                                lemma_ec_head(s@, g, h);
                            }
                        }
                        Err(ConversionError)
                    },
                }
            },
        }
    }
}

/// Parses the four values and closing segments of the discrete-logarithm
/// form, the opening segment already consumed; returns the configuration
/// and the end position.
fn parse_dl_tail(s: &str, i1: usize) -> (r: Option<(Configuration, usize)>)
    requires
        i1 <= s@.len(),
        i1 == "{\n  \"discreteLogarithm\": {\n    \"p\": \""@.len(),
        s@.subrange(0, i1 as int) == "{\n  \"discreteLogarithm\": {\n    \"p\": \""@,
    ensures
        r matches Some(v) ==> v.1 <= s@.len() && s@.subrange(0, v.1 as int) == config_json(v.0)
            && config_digits_canonical(v.0) && v.0 is DiscreteLogarithm,
        forall|p: Seq<char>, q: Seq<char>, g: Seq<char>, h: Seq<char>|
            is_canonical(p) && is_canonical(q) && is_canonical(g) && is_canonical(h) && s@
                == json_dl(p, q, g, h) ==> (r matches Some(v) && v.1 == s@.len()),
{
    proof {
        reveal_strlit("{\n  \"discreteLogarithm\": {\n    \"p\": \"");
        reveal_strlit("\",\n    \"q\": \"");
        reveal_strlit("\",\n    \"g\": \"");
        reveal_strlit("\",\n    \"h\": \"");
        reveal_strlit("\"\n  }\n}");
        assert forall|p: Seq<char>, q: Seq<char>, g: Seq<char>, h: Seq<char>|
            is_canonical(p) && is_canonical(q) && is_canonical(g) && is_canonical(h) && s@
                == json_dl(p, q, g, h) implies dl_shape(s@, p, q, g, h) by {
            lemma_dl_positions(s@, p, q, g, h);
        }
    }
    let (p, i2) = match eat_value(s, i1) {
        Some(v) => v,
        None => {
            return None;
        },
    };
    let i3 = match eat_lit(s, i2, "\",\n    \"q\": \"") {
        Some(j) => j,
        None => {
            return None;
        },
    };
    let (q, i4) = match eat_value(s, i3) {
        Some(v) => v,
        None => {
            return None;
        },
    };
    let i5 = match eat_lit(s, i4, "\",\n    \"g\": \"") {
        Some(j) => j,
        None => {
            return None;
        },
    };
    let (g, i6) = match eat_value_elem(s, i5) {
        Some(v) => v,
        None => {
            return None;
        },
    };
    let i7 = match eat_lit(s, i6, "\",\n    \"h\": \"") {
        Some(j) => j,
        None => {
            return None;
        },
    };
    let (h, i8) = match eat_value_elem(s, i7) {
        Some(v) => v,
        None => {
            return None;
        },
    };
    let i9 = match eat_lit(s, i8, "\"\n  }\n}") {
        Some(j) => j,
        None => {
            return None;
        },
    };
    let config = Configuration::DiscreteLogarithm(
        DiscreteLogarithmConfiguration { p, q, g: g, h: h },
    );
    proof {
        assert(s@.subrange(0, i9 as int) =~= config_json(config));
    }
    Some((config, i9))
}

/// Parses the two values and closing segments of the elliptic-curve form,
/// the opening segment already consumed.
fn parse_ec_tail(s: &str, i1: usize) -> (r: Option<(Configuration, usize)>)
    requires
        i1 <= s@.len(),
        i1 == "{\n  \"ellipticCurve\": {\n    \"g\": \""@.len(),
        s@.subrange(0, i1 as int) == "{\n  \"ellipticCurve\": {\n    \"g\": \""@,
    ensures
        r matches Some(v) ==> v.1 <= s@.len() && s@.subrange(0, v.1 as int) == config_json(v.0)
            && config_digits_canonical(v.0) && v.0 is EllipticCurve,
        forall|g: Seq<char>, h: Seq<char>|
            is_canonical(g) && is_canonical(h) && s@ == json_ec(g, h) ==> (r matches Some(v)
                && v.1 == s@.len()),
{
    proof {
        reveal_strlit("{\n  \"ellipticCurve\": {\n    \"g\": \"");
        reveal_strlit("\",\n    \"h\": \"");
        reveal_strlit("\"\n  }\n}");
        assert forall|g: Seq<char>, h: Seq<char>|
            is_canonical(g) && is_canonical(h) && s@ == json_ec(g, h) implies ec_shape(
            s@,
            g,
            h,
        ) by {
            lemma_ec_positions(s@, g, h);
        }
    }
    let (g, i2) = match eat_value_elem(s, i1) {
        Some(v) => v,
        None => {
            return None;
        },
    };
    let i3 = match eat_lit(s, i2, "\",\n    \"h\": \"") {
        Some(j) => j,
        None => {
            return None;
        },
    };
    let (h, i4) = match eat_value_elem(s, i3) {
        Some(v) => v,
        None => {
            return None;
        },
    };
    let i5 = match eat_lit(s, i4, "\"\n  }\n}") {
        Some(j) => j,
        None => {
            return None;
        },
    };
    let config = Configuration::EllipticCurve(EllipticCurveConfiguration { g, h });
    proof {
        assert(s@.subrange(0, i5 as int) =~= config_json(config));
    }
    Some((config, i5))
}

/// The positional facts the discrete-logarithm text gives: where each
/// value run stands, and what stands after it.
pub open spec fn dl_shape(s: Seq<char>, p: Seq<char>, q: Seq<char>, g: Seq<char>, h: Seq<
    char,
>) -> bool {
    let l1 = "{\n  \"discreteLogarithm\": {\n    \"p\": \""@;
    let l2 = "\",\n    \"q\": \""@;
    let l3 = "\",\n    \"g\": \""@;
    let l4 = "\",\n    \"h\": \""@;
    let l5 = "\"\n  }\n}"@;
    let i1 = l1.len() as int;
    let i2 = i1 + p.len();
    let i3 = i2 + l2.len();
    let i4 = i3 + q.len();
    let i5 = i4 + l3.len();
    let i6 = i5 + g.len();
    let i7 = i6 + l4.len();
    let i8 = i7 + h.len();
    let i9 = i8 + l5.len();
    &&& s.len() == i9
    &&& s.subrange(0, i1) == l1
    &&& run_at(s, i1, p)
    &&& s.subrange(i2, i3) == l2
    &&& run_at(s, i3, q)
    &&& s.subrange(i4, i5) == l3
    &&& run_at(s, i5, g)
    &&& s.subrange(i6, i7) == l4
    &&& run_at(s, i7, h)
    &&& s.subrange(i8, i9) == l5
}

/// The positional facts the elliptic-curve text gives.
pub open spec fn ec_shape(s: Seq<char>, g: Seq<char>, h: Seq<char>) -> bool {
    let l1 = "{\n  \"ellipticCurve\": {\n    \"g\": \""@;
    let l2 = "\",\n    \"h\": \""@;
    let l3 = "\"\n  }\n}"@;
    let i1 = l1.len() as int;
    let i2 = i1 + g.len();
    let i3 = i2 + l2.len();
    let i4 = i3 + h.len();
    let i5 = i4 + l3.len();
    &&& s.len() == i5
    &&& s.subrange(0, i1) == l1
    &&& run_at(s, i1, g)
    &&& s.subrange(i2, i3) == l2
    &&& run_at(s, i3, h)
    &&& s.subrange(i4, i5) == l3
}

/// A discrete-logarithm text decomposes positionally.
proof fn lemma_dl_positions(s: Seq<char>, p: Seq<char>, q: Seq<char>, g: Seq<char>, h: Seq<char>)
    requires
        is_canonical(p),
        is_canonical(q),
        is_canonical(g),
        is_canonical(h),
        s == json_dl(p, q, g, h),
    ensures
        dl_shape(s, p, q, g, h),
{
    reveal_strlit("{\n  \"discreteLogarithm\": {\n    \"p\": \"");
    reveal_strlit("\",\n    \"q\": \"");
    reveal_strlit("\",\n    \"g\": \"");
    reveal_strlit("\",\n    \"h\": \"");
    reveal_strlit("\"\n  }\n}");
    let l1 = "{\n  \"discreteLogarithm\": {\n    \"p\": \""@;
    let l2 = "\",\n    \"q\": \""@;
    let l3 = "\",\n    \"g\": \""@;
    let l4 = "\",\n    \"h\": \""@;
    let l5 = "\"\n  }\n}"@;
    let i1 = l1.len() as int;
    let i2 = i1 + p.len();
    let i3 = i2 + l2.len();
    let i4 = i3 + q.len();
    let i5 = i4 + l3.len();
    let i6 = i5 + g.len();
    let i7 = i6 + l4.len();
    let i8 = i7 + h.len();
    let i9 = i8 + l5.len();
    assert(s.len() == i9);
    assert(s.subrange(0, i1) =~= l1);
    assert(s.subrange(i1, i2) =~= p);
    assert(s.subrange(i2, i3) =~= l2);
    assert(s.subrange(i3, i4) =~= q);
    assert(s.subrange(i4, i5) =~= l3);
    assert(s.subrange(i5, i6) =~= g);
    assert(s.subrange(i6, i7) =~= l4);
    assert(s.subrange(i7, i8) =~= h);
    assert(s.subrange(i8, i9) =~= l5);
    assert(!is_dec_digit(l2[0]) && !is_dec_digit(l3[0]) && !is_dec_digit(l4[0]) && !is_dec_digit(
        l5[0],
    ));
    assert(s[i2] == l2[0]);
    assert(s[i4] == l3[0]);
    assert(s[i6] == l4[0]);
    assert(s[i8] == l5[0]);
}

/// An elliptic-curve text decomposes positionally.
proof fn lemma_ec_positions(s: Seq<char>, g: Seq<char>, h: Seq<char>)
    requires
        is_canonical(g),
        is_canonical(h),
        s == json_ec(g, h),
    ensures
        ec_shape(s, g, h),
{
    reveal_strlit("{\n  \"ellipticCurve\": {\n    \"g\": \"");
    reveal_strlit("\",\n    \"h\": \"");
    reveal_strlit("\"\n  }\n}");
    let l1 = "{\n  \"ellipticCurve\": {\n    \"g\": \""@;
    let l2 = "\",\n    \"h\": \""@;
    let l3 = "\"\n  }\n}"@;
    let i1 = l1.len() as int;
    let i2 = i1 + g.len();
    let i3 = i2 + l2.len();
    let i4 = i3 + h.len();
    let i5 = i4 + l3.len();
    assert(s.len() == i5);
    assert(s.subrange(0, i1) =~= l1);
    assert(s.subrange(i1, i2) =~= g);
    assert(s.subrange(i2, i3) =~= l2);
    assert(s.subrange(i3, i4) =~= h);
    assert(s.subrange(i4, i5) =~= l3);
    assert(!is_dec_digit(l2[0]) && !is_dec_digit(l3[0]));
    assert(s[i2] == l2[0]);
    assert(s[i4] == l3[0]);
}

/// A discrete-logarithm text starts with the discrete-logarithm head.
proof fn lemma_dl_head(s: Seq<char>, p: Seq<char>, q: Seq<char>, g: Seq<char>, h: Seq<char>)
    requires
        s == json_dl(p, q, g, h),
    ensures
        "{\n  \"discreteLogarithm\": {\n    \"p\": \""@.len() <= s.len(),
        s.subrange(
            0,
            "{\n  \"discreteLogarithm\": {\n    \"p\": \""@.len() as int,
        ) == "{\n  \"discreteLogarithm\": {\n    \"p\": \""@,
{
    let l1 = "{\n  \"discreteLogarithm\": {\n    \"p\": \""@;
    assert(s.subrange(0, l1.len() as int) =~= l1);
}

/// An elliptic-curve text starts with the elliptic-curve head.
proof fn lemma_ec_head(s: Seq<char>, g: Seq<char>, h: Seq<char>)
    requires
        s == json_ec(g, h),
    ensures
        "{\n  \"ellipticCurve\": {\n    \"g\": \""@.len() <= s.len(),
        s.subrange(
            0,
            "{\n  \"ellipticCurve\": {\n    \"g\": \""@.len() as int,
        ) == "{\n  \"ellipticCurve\": {\n    \"g\": \""@,
{
    let l1 = "{\n  \"ellipticCurve\": {\n    \"g\": \""@;
    assert(s.subrange(0, l1.len() as int) =~= l1);
}

/// A text that starts with the discrete-logarithm head is no
/// elliptic-curve text: the two heads differ where the flavor is named.
proof fn lemma_no_ec_after_dl_head(s: Seq<char>)
    requires
        "{\n  \"discreteLogarithm\": {\n    \"p\": \""@.len() <= s.len(),
        s.subrange(
            0,
            "{\n  \"discreteLogarithm\": {\n    \"p\": \""@.len() as int,
        ) == "{\n  \"discreteLogarithm\": {\n    \"p\": \""@,
    ensures
        forall|g: Seq<char>, h: Seq<char>| s != json_ec(g, h),
{
    reveal_strlit("{\n  \"discreteLogarithm\": {\n    \"p\": \"");
    reveal_strlit("{\n  \"ellipticCurve\": {\n    \"g\": \"");
    let l1 = "{\n  \"discreteLogarithm\": {\n    \"p\": \""@;
    let e1 = "{\n  \"ellipticCurve\": {\n    \"g\": \""@;
    assert(s[5] == l1[5]);
    assert forall|g: Seq<char>, h: Seq<char>| s != json_ec(g, h) by {
        if s == json_ec(g, h) {
            assert(json_ec(g, h)[5] == e1[5]);
            assert(l1[5] == 'd' && e1[5] == 'e');
        }
    }
}

/// Writing a configuration and reading the text back is an identity: two
/// configurations with canonical digits and the same text carry the same
/// flavor and the same values.
pub proof fn lemma_config_json_identity(a: Configuration, b: Configuration)
    requires
        config_digits_canonical(a),
        config_digits_canonical(b),
        config_json(a) == config_json(b),
    ensures
        config_same(a, b),
{
    reveal_strlit("{\n  \"discreteLogarithm\": {\n    \"p\": \"");
    reveal_strlit("{\n  \"ellipticCurve\": {\n    \"g\": \"");
    reveal_strlit("\",\n    \"q\": \"");
    reveal_strlit("\",\n    \"g\": \"");
    reveal_strlit("\",\n    \"h\": \"");
    reveal_strlit("\",\n    \"h\": \"");
    reveal_strlit("\"\n  }\n}");
    let s = config_json(a);
    match (a, b) {
        (Configuration::DiscreteLogarithm(x), Configuration::DiscreteLogarithm(y)) => {
            lemma_dl_positions(s, x.p@, x.q@, x.g@, x.h@);
            lemma_dl_positions(s, y.p@, y.q@, y.g@, y.h@);
            lemma_shape_unique_dl(s, x.p@, x.q@, x.g@, x.h@, y.p@, y.q@, y.g@, y.h@);
        },
        (Configuration::EllipticCurve(x), Configuration::EllipticCurve(y)) => {
            lemma_ec_positions(s, x.g@, x.h@);
            lemma_ec_positions(s, y.g@, y.h@);
            lemma_shape_unique_ec(s, x.g@, x.h@, y.g@, y.h@);
        },
        (Configuration::DiscreteLogarithm(x), Configuration::EllipticCurve(y)) => {
            lemma_dl_head(s, x.p@, x.q@, x.g@, x.h@);
            lemma_no_ec_after_dl_head(s);
            assert(config_json(b) == json_ec(y.g@, y.h@));
            assert(false);
        },
        (Configuration::EllipticCurve(x), Configuration::DiscreteLogarithm(y)) => {
            lemma_dl_head(s, y.p@, y.q@, y.g@, y.h@);
            lemma_no_ec_after_dl_head(s);
            assert(s == json_ec(x.g@, x.h@));
            assert(false);
        },
    }
}

/// At most one field decomposition fits one discrete-logarithm text.
proof fn lemma_shape_unique_dl(
    s: Seq<char>,
    p1: Seq<char>,
    q1: Seq<char>,
    g1: Seq<char>,
    h1: Seq<char>,
    p2: Seq<char>,
    q2: Seq<char>,
    g2: Seq<char>,
    h2: Seq<char>,
)
    requires
        dl_shape(s, p1, q1, g1, h1),
        dl_shape(s, p2, q2, g2, h2),
    ensures
        p1 == p2,
        q1 == q2,
        g1 == g2,
        h1 == h2,
{
    let l1 = "{\n  \"discreteLogarithm\": {\n    \"p\": \""@;
    let i1 = l1.len() as int;
    lemma_run_at_unique(s, i1, p1, p2);
    lemma_run_at_unique(s, i1 + p1.len() + "\",\n    \"q\": \""@.len(), q1, q2);
    lemma_run_at_unique(
        s,
        i1 + p1.len() + "\",\n    \"q\": \""@.len() + q1.len() + "\",\n    \"g\": \""@.len(),
        g1,
        g2,
    );
    lemma_run_at_unique(
        s,
        i1 + p1.len() + "\",\n    \"q\": \""@.len() + q1.len() + "\",\n    \"g\": \""@.len()
            + g1.len() + "\",\n    \"h\": \""@.len(),
        h1,
        h2,
    );
}

/// At most one field decomposition fits one elliptic-curve text.
proof fn lemma_shape_unique_ec(
    s: Seq<char>,
    g1: Seq<char>,
    h1: Seq<char>,
    g2: Seq<char>,
    h2: Seq<char>,
)
    requires
        ec_shape(s, g1, h1),
        ec_shape(s, g2, h2),
    ensures
        g1 == g2,
        h1 == h2,
{
    let l1 = "{\n  \"ellipticCurve\": {\n    \"g\": \""@;
    let i1 = l1.len() as int;
    lemma_run_at_unique(s, i1, g1, g2);
    lemma_run_at_unique(s, i1 + g1.len() + "\",\n    \"h\": \""@.len(), h1, h2);
}

/// Two maximal digit runs at one position are the same run.
proof fn lemma_run_at_unique(s: Seq<char>, i: int, x: Seq<char>, y: Seq<char>)
    requires
        run_at(s, i, x),
        run_at(s, i, y),
    ensures
        x == y,
{
    if x.len() < y.len() {
        assert(is_dec_digit(y[x.len() as int]));
        assert(y[x.len() as int] == s[i + x.len()]);
        assert(false);
    }
    if y.len() < x.len() {
        assert(is_dec_digit(x[y.len() as int]));
        assert(x[y.len() as int] == s[i + y.len()]);
        assert(false);
    }
    assert(x =~= y);
}

} // verus!
