//! The canonical claims encoding: a JSON object with a fixed field order,
//! written and read character by character.
//!
//! The canonical text of a claims value is
//! `{"user_id":S,"level":N,"user_name":S,"company_id":S,"company_name":S,"exp":N,"iat":N}`
//! with `,"scope":S` inserted before the closing brace exactly when the
//! scope is present.  `S` is a double-quoted string in which `"` and `\`
//! are preceded by a backslash and every other character stands for
//! itself; `N` is a decimal integer, `-`-signed when negative.  The reader
//! accepts exactly this shape (leading zeros and a signed zero are
//! tolerated in numbers) and rejects everything else as a whole.

use vstd::prelude::*;

use crate::claims::Claims;
use crate::claims::ClaimsView;

verus! {

// ---------------------------------------------------------------------
// String escaping
// ---------------------------------------------------------------------

/// How one character appears inside a quoted string: `"` and `\` get a
/// backslash before them, everything else stands for itself.
pub open spec fn esc_char(c: char) -> Seq<char> {
    if c == '"' || c == '\\' {
        seq!['\\', c]
    } else {
        seq![c]
    }
}

/// The body of a quoted string: each character escaped.
pub open spec fn esc(s: Seq<char>) -> Seq<char>
    decreases s.len(),
{
    if s.len() == 0 {
        Seq::empty()
    } else {
        esc_char(s[0]) + esc(s.drop_first())
    }
}

pub proof fn lemma_esc_append(a: Seq<char>, b: Seq<char>)
    ensures
        esc(a + b) == esc(a) + esc(b),
    decreases a.len(),
{
    if a.len() == 0 {
        assert(a + b =~= b);
        assert(esc(a) + esc(b) =~= esc(b));
    } else {
        assert((a + b).drop_first() =~= a.drop_first() + b);
        lemma_esc_append(a.drop_first(), b);
        assert(esc(a + b) =~= esc(a) + esc(b));
    }
}

// ---------------------------------------------------------------------
// Decimal integers
// ---------------------------------------------------------------------

pub open spec fn is_digit(c: char) -> bool {
    48 <= c as u32 && c as u32 <= 57
}

pub open spec fn dval(c: char) -> nat {
    (c as u32 - 48) as nat
}

pub open spec fn digit_char(d: nat) -> char {
    if d == 0 { '0' }
    else if d == 1 { '1' }
    else if d == 2 { '2' }
    else if d == 3 { '3' }
    else if d == 4 { '4' }
    else if d == 5 { '5' }
    else if d == 6 { '6' }
    else if d == 7 { '7' }
    else if d == 8 { '8' }
    else { '9' }
}

/// The decimal digits of `m`, most significant first.
pub open spec fn dec_u(m: nat) -> Seq<char>
    decreases m,
{
    if m < 10 {
        seq![digit_char(m)]
    } else {
        dec_u(m / 10) + seq![digit_char(m % 10)]
    }
}

/// The decimal text of `n`: a minus sign before the digits when negative.
pub open spec fn dec_int(n: int) -> Seq<char> {
    if n < 0 {
        seq!['-'] + dec_u((-n) as nat)
    } else {
        dec_u(n as nat)
    }
}

pub open spec fn pow10(k: nat) -> nat
    decreases k,
{
    if k == 0 {
        1
    } else {
        10 * pow10((k - 1) as nat)
    }
}

/// The number a digit sequence denotes, most significant digit first.
pub open spec fn val_digits(ds: Seq<char>) -> nat
    decreases ds.len(),
{
    if ds.len() == 0 {
        0
    } else {
        val_digits(ds.drop_last()) * 10 + dval(ds.last())
    }
}

pub open spec fn all_digits(ds: Seq<char>) -> bool {
    forall|j: int| 0 <= j < ds.len() ==> is_digit(#[trigger] ds[j])
}

pub proof fn lemma_val_singleton(d: char)
    ensures
        val_digits(seq![d]) == dval(d),
{
    let sd = seq![d];
    assert(sd.len() == 1);
    assert(sd.last() == d);
    assert(sd.drop_last() =~= Seq::<char>::empty());
    assert(val_digits(sd.drop_last()) == 0);
}

pub proof fn lemma_dec_u(m: nat)
    ensures
        dec_u(m).len() >= 1,
        all_digits(dec_u(m)),
        val_digits(dec_u(m)) == m,
    decreases m,
{
    if m < 10 {
        assert(dec_u(m) =~= seq![digit_char(m)]);
        assert(is_digit(digit_char(m)));
        assert(dval(digit_char(m)) == m);
        lemma_val_singleton(digit_char(m));
    } else {
        lemma_dec_u(m / 10);
        let ds = dec_u(m);
        assert(ds =~= dec_u(m / 10) + seq![digit_char(m % 10)]);
        assert(ds.drop_last() =~= dec_u(m / 10));
        assert(ds.last() == digit_char(m % 10));
        assert(dval(digit_char(m % 10)) == m % 10);
        assert(val_digits(ds) == (m / 10) * 10 + m % 10);
        assert((m / 10) * 10 + m % 10 == m) by (nonlinear_arith);
        assert forall|j: int| 0 <= j < ds.len() implies is_digit(#[trigger] ds[j]) by {
            if j < dec_u(m / 10).len() {
                assert(ds[j] == dec_u(m / 10)[j]);
            } else {
                assert(ds[j] == digit_char(m % 10));
            }
        }
    }
}

pub proof fn lemma_pow10_pos(k: nat)
    ensures
        pow10(k) >= 1,
    decreases k,
{
    if k > 0 {
        lemma_pow10_pos((k - 1) as nat);
    }
}

pub proof fn lemma_val_prepend(d: char, ds: Seq<char>)
    ensures
        val_digits(seq![d] + ds) == dval(d) * pow10(ds.len()) + val_digits(ds),
    decreases ds.len(),
{
    if ds.len() == 0 {
        assert(seq![d] + ds =~= seq![d]);
        lemma_val_singleton(d);
        assert(pow10(0) == 1);
        assert(val_digits(ds) == 0);
    } else {
        lemma_val_prepend(d, ds.drop_last());
        let whole = seq![d] + ds;
        assert(whole.drop_last() =~= seq![d] + ds.drop_last());
        assert(whole.last() == ds.last());
        let k1 = ds.drop_last().len();
        assert(val_digits(whole) == (dval(d) * pow10(k1) + val_digits(ds.drop_last())) * 10
            + dval(ds.last()));
        assert((dval(d) * pow10(k1) + val_digits(ds.drop_last())) * 10
            == dval(d) * (10 * pow10(k1)) + val_digits(ds.drop_last()) * 10) by (nonlinear_arith);
        assert(pow10(ds.len()) == 10 * pow10(k1));
    }
}

// ---------------------------------------------------------------------
// Scanning (the spec-level reader)
// ---------------------------------------------------------------------

/// Reads a quoted string body starting at `i`, the opening quote already
/// consumed: collects characters, undoes escapes, and stops after the
/// closing quote.  `None` on a bad escape or a missing quote.
pub open spec fn scan_str(s: Seq<char>, i: int, acc: Seq<char>) -> Option<(Seq<char>, int)>
    decreases s.len() - i,
{
    if i < 0 || i >= s.len() {
        None
    } else if s[i] == '"' {
        Some((acc, i + 1))
    } else if s[i] == '\\' {
        if i + 1 >= s.len() {
            None
        } else if s[i + 1] == '"' || s[i + 1] == '\\' {
            scan_str(s, i + 2, acc.push(s[i + 1]))
        } else {
            None
        }
    } else {
        scan_str(s, i + 1, acc.push(s[i]))
    }
}

/// Reads digits starting at `i`, accumulating left to right onto `acc`;
/// stops at the first non-digit.  `None` as soon as the value would pass
/// `cap`.
pub open spec fn scan_u(s: Seq<char>, i: int, acc: nat, cap: nat) -> Option<(nat, int)>
    decreases s.len() - i,
{
    if i < 0 || i >= s.len() || !is_digit(s[i]) {
        Some((acc, i))
    } else {
        let v = acc * 10 + dval(s[i]);
        if v > cap {
            None
        } else {
            scan_u(s, i + 1, v, cap)
        }
    }
}

/// Reads a decimal integer at `i`: an optional minus sign, then at least
/// one digit; the magnitude must fit the signed 64-bit range.
pub open spec fn parse_int(s: Seq<char>, i: int) -> Option<(int, int)> {
    if i < 0 || i >= s.len() {
        None
    } else if s[i] == '-' {
        if i + 1 < s.len() && is_digit(s[i + 1]) {
            match scan_u(s, i + 1, 0, 0x8000_0000_0000_0000) {
                Some((m, j)) => Some((-(m as int), j)),
                None => None,
            }
        } else {
            None
        }
    } else if is_digit(s[i]) {
        match scan_u(s, i, 0, 0x7FFF_FFFF_FFFF_FFFF) {
            Some((m, j)) => Some((m as int, j)),
            None => None,
        }
    } else {
        None
    }
}

/// Peels a known prefix off the window of `s` from `i` to `e`: the
/// prefix's characters stand at `i`, and the remainder starts right after.
pub proof fn lemma_split_at(s: Seq<char>, i: int, e: int, a: Seq<char>, b: Seq<char>)
    requires
        0 <= i <= e <= s.len(),
        s.subrange(i, e) == a + b,
    ensures
        i + a.len() <= e,
        forall|k: int| 0 <= k < a.len() ==> s[i + k] == a[k],
        s.subrange(i + a.len(), e) == b,
        s.subrange(i, i + a.len()) == a,
        begins(s, i, a),
        a.len() > 0 ==> s[i] == a[0],
        a.len() > 1 ==> s[i + 1] == a[1],
{
    let suf = s.subrange(i, e);
    assert(suf.len() == a.len() + b.len());
    if a.len() > 0 {
        assert(suf[0] == s[i]);
        assert((a + b)[0] == a[0]);
    }
    if a.len() > 1 {
        assert(suf[1] == s[i + 1]);
        assert((a + b)[1] == a[1]);
    }
    assert forall|k: int| 0 <= k < a.len() implies s[i + k] == a[k] by {
        assert(suf[k] == s[i + k]);
        assert((a + b)[k] == a[k]);
    }
    assert forall|k: int| 0 <= k < b.len() implies s[i + a.len() + k] == b[k] by {
        assert(suf[a.len() + k] == s[i + a.len() + k]);
        assert((a + b)[a.len() + k] == b[k]);
    }
    assert(s.subrange(i + a.len(), e) =~= b);
    assert(s.subrange(i, i + a.len()) =~= a);
}

/// The suffix-to-end form of [`lemma_split_at`].
pub proof fn lemma_split_prefix(s: Seq<char>, i: int, a: Seq<char>, b: Seq<char>)
    requires
        0 <= i <= s.len(),
        s.subrange(i, s.len() as int) == a + b,
    ensures
        i + a.len() <= s.len(),
        forall|k: int| 0 <= k < a.len() ==> s[i + k] == a[k],
        s.subrange(i + a.len(), s.len() as int) == b,
        s.subrange(i, i + a.len()) == a,
        begins(s, i, a),
        a.len() > 0 ==> s[i] == a[0],
        a.len() > 1 ==> s[i + 1] == a[1],
{
    lemma_split_at(s, i, s.len() as int, a, b);
}

/// Reading an escaped string body out of its surrounding text recovers
/// the original characters and stops right after the closing quote.
pub proof fn lemma_scan_esc(s: Seq<char>, i: int, acc: Seq<char>, v: Seq<char>, rest: Seq<char>)
    requires
        0 <= i <= s.len(),
        s.subrange(i, s.len() as int) == esc(v) + seq!['"'] + rest,
    ensures
        scan_str(s, i, acc) == Some((acc + v, i + esc(v).len() + 1)),
    decreases v.len(),
{
    if v.len() == 0 {
        assert(esc(v) =~= Seq::<char>::empty());
        assert(s.subrange(i, s.len() as int) =~= seq!['"'] + rest);
        lemma_split_prefix(s, i, seq!['"'], rest);
        assert(s[i] == '"');
        assert(acc + v =~= acc);
    } else {
        let c = v[0];
        let v1 = v.drop_first();
        let tail = esc(v1) + seq!['"'] + rest;
        assert(esc(v) =~= esc_char(c) + esc(v1));
        assert(s.subrange(i, s.len() as int) =~= esc_char(c) + tail);
        lemma_split_prefix(s, i, esc_char(c), tail);
        if c == '"' || c == '\\' {
            assert(s[i] == '\\');
            assert(s[i + 1] == c);
            lemma_scan_esc(s, i + 2, acc.push(c), v1, rest);
            assert(acc.push(c) + v1 =~= acc + v);
        } else {
            assert(s[i] == c);
            lemma_scan_esc(s, i + 1, acc.push(c), v1, rest);
            assert(acc.push(c) + v1 =~= acc + v);
        }
    }
}

/// Scanning a maximal digit block accumulates exactly its value.
pub proof fn lemma_scan_digits(s: Seq<char>, i: int, acc: nat, cap: nat, ds: Seq<char>)
    requires
        0 <= i,
        i + ds.len() <= s.len(),
        ds.len() >= 1,
        all_digits(ds),
        s.subrange(i, i + ds.len()) == ds,
        i + ds.len() == s.len() || !is_digit(s[i + ds.len()]),
        acc * pow10(ds.len()) + val_digits(ds) <= cap,
    ensures
        scan_u(s, i, acc, cap) == Some((acc * pow10(ds.len()) + val_digits(ds), i + ds.len())),
    decreases ds.len(),
{
    let d = ds[0];
    let ds1 = ds.drop_first();
    let k1 = ds1.len();
    assert(ds =~= seq![d] + ds1);
    lemma_split_at(s, i, i + ds.len(), seq![d], ds1);
    assert(s[i] == d);
    assert(is_digit(d));
    let v = acc * 10 + dval(d);
    lemma_val_prepend(d, ds1);
    assert(val_digits(ds) == dval(d) * pow10(k1) + val_digits(ds1));
    assert(pow10(ds.len()) == 10 * pow10(k1));
    assert(acc * (10 * pow10(k1)) + (dval(d) * pow10(k1) + val_digits(ds1))
        == (acc * 10 + dval(d)) * pow10(k1) + val_digits(ds1)) by (nonlinear_arith);
    assert(acc * pow10(ds.len()) + val_digits(ds) == v * pow10(k1) + val_digits(ds1));
    lemma_pow10_pos(k1);
    assert(v <= v * pow10(k1)) by (nonlinear_arith)
        requires
            pow10(k1) >= 1,
            v >= 0,
    ;
    assert(v <= cap);
    if ds.len() == 1 {
        assert(pow10(0) == 1);
        assert(val_digits(ds1) == 0);
        assert(scan_u(s, i, acc, cap) == scan_u(s, i + 1, v, cap));
        assert(i + 1 == s.len() || !is_digit(s[i + 1]));
        assert(scan_u(s, i + 1, v, cap) == Some((v, i + 1)));
        assert(v * pow10(k1) + val_digits(ds1) == v) by (nonlinear_arith)
            requires
                pow10(k1) == 1,
                val_digits(ds1) == 0,
        ;
    } else {
        assert forall|j: int| 0 <= j < ds1.len() implies is_digit(#[trigger] ds1[j]) by {
            assert(ds1[j] == ds[j + 1]);
        }
        lemma_scan_digits(s, i + 1, v, cap, ds1);
        assert(scan_u(s, i + 1, v, cap) == Some((v * pow10(k1) + val_digits(ds1), i + 1 + k1)));
        assert(scan_u(s, i, acc, cap) == scan_u(s, i + 1, v, cap));
    }
}

/// Reading the decimal text of an integer back recovers it, provided the
/// character after the digits is not a digit.
pub proof fn lemma_parse_dec(s: Seq<char>, i: int, n: int)
    requires
        0 <= i,
        i + dec_int(n).len() <= s.len(),
        s.subrange(i, i + dec_int(n).len()) == dec_int(n),
        i + dec_int(n).len() == s.len() || !is_digit(s[i + dec_int(n).len()]),
        -0x8000_0000_0000_0000 <= n <= 0x7FFF_FFFF_FFFF_FFFF,
    ensures
        parse_int(s, i) == Some((n, i + dec_int(n).len())),
{
    let e = i + dec_int(n).len();
    if n < 0 {
        let m = (-n) as nat;
        lemma_dec_u(m);
        assert(s.subrange(i, e) =~= seq!['-'] + dec_u(m));
        lemma_split_at(s, i, e, seq!['-'], dec_u(m));
        assert(s[i] == '-');
        assert(s.subrange(i + 1, e) =~= dec_u(m) + Seq::<char>::empty());
        lemma_split_at(s, i + 1, e, dec_u(m), Seq::<char>::empty());
        assert(s[i + 1] == dec_u(m)[0]);
        assert(is_digit(s[i + 1]));
        assert(0 * pow10(dec_u(m).len()) == 0) by (nonlinear_arith);
        lemma_scan_digits(s, i + 1, 0, 0x8000_0000_0000_0000, dec_u(m));
        assert(scan_u(s, i + 1, 0, 0x8000_0000_0000_0000) == Some((m, e)));
    } else {
        let m = n as nat;
        lemma_dec_u(m);
        assert(s.subrange(i, e) =~= dec_u(m) + Seq::<char>::empty());
        lemma_split_at(s, i, e, dec_u(m), Seq::<char>::empty());
        assert(s[i] == dec_u(m)[0]);
        assert(is_digit(s[i]));
        assert(!(s[i] == '-'));
        assert(0 * pow10(dec_u(m).len()) == 0) by (nonlinear_arith);
        lemma_scan_digits(s, i, 0, 0x7FFF_FFFF_FFFF_FFFF, dec_u(m));
        assert(scan_u(s, i, 0, 0x7FFF_FFFF_FFFF_FFFF) == Some((m, e)));
    }
}

/// `lit` occurs in `s` starting at `i`.
pub open spec fn begins(s: Seq<char>, i: int, lit: Seq<char>) -> bool {
    0 <= i && i + lit.len() <= s.len() && s.subrange(i, i + lit.len()) == lit
}

// ---------------------------------------------------------------------
// The fixed pieces of the object
// ---------------------------------------------------------------------

pub open spec fn lit_user_id() -> Seq<char> {
    seq!['{', '"', 'u', 's', 'e', 'r', '_', 'i', 'd', '"', ':', '"']
}

pub open spec fn lit_level() -> Seq<char> {
    seq![',', '"', 'l', 'e', 'v', 'e', 'l', '"', ':']
}

pub open spec fn lit_user_name() -> Seq<char> {
    seq![',', '"', 'u', 's', 'e', 'r', '_', 'n', 'a', 'm', 'e', '"', ':', '"']
}

pub open spec fn lit_company_id() -> Seq<char> {
    seq![',', '"', 'c', 'o', 'm', 'p', 'a', 'n', 'y', '_', 'i', 'd', '"', ':', '"']
}

pub open spec fn lit_company_name() -> Seq<char> {
    seq![',', '"', 'c', 'o', 'm', 'p', 'a', 'n', 'y', '_', 'n', 'a', 'm', 'e', '"', ':', '"']
}

pub open spec fn lit_exp() -> Seq<char> {
    seq![',', '"', 'e', 'x', 'p', '"', ':']
}

pub open spec fn lit_iat() -> Seq<char> {
    seq![',', '"', 'i', 'a', 't', '"', ':']
}

pub open spec fn lit_scope() -> Seq<char> {
    seq![',', '"', 's', 'c', 'o', 'p', 'e', '"', ':', '"']
}

// ---------------------------------------------------------------------
// The canonical text of a claims value
// ---------------------------------------------------------------------

/// The canonical character sequence of a claims value: fixed field order,
/// scope only when present.
pub open spec fn json_chars_of(c: ClaimsView) -> Seq<char> {
    lit_user_id() + esc(c.user_id) + seq!['"']
        + lit_level() + dec_int(c.level)
        + lit_user_name() + esc(c.user_name) + seq!['"']
        + lit_company_id() + esc(c.company_id) + seq!['"']
        + lit_company_name() + esc(c.company_name) + seq!['"']
        + lit_exp() + dec_int(c.exp)
        + lit_iat() + dec_int(c.iat)
        + match c.scope {
            Option::None => seq!['}'],
            Option::Some(sc) => lit_scope() + esc(sc) + seq!['"', '}'],
        }
}

/// Reads the canonical text back into a claims view.  `None` unless the
/// whole input is exactly the canonical shape.
pub open spec fn parse_claims_chars(s: Seq<char>) -> Option<ClaimsView> {
    if !begins(s, 0, lit_user_id()) {
        None
    } else {
        match scan_str(s, lit_user_id().len() as int, Seq::empty()) {
            None => None,
            Some((user_id, i1)) => {
                if !begins(s, i1, lit_level()) {
                    None
                } else {
                    match parse_int(s, i1 + lit_level().len()) {
                        None => None,
                        Some((level, i2)) => {
                            if !(i32::MIN as int <= level <= i32::MAX as int) {
                                None
                            } else if !begins(s, i2, lit_user_name()) {
                                None
                            } else {
                                parse_claims_tail(s, user_id, level, i2 + lit_user_name().len())
                            }
                        },
                    }
                }
            },
        }
    }
}

/// Continues [`parse_claims_chars`] after the `user_name` key.
pub open spec fn parse_claims_tail(s: Seq<char>, user_id: Seq<char>, level: int, i0: int)
    -> Option<ClaimsView> {
    match scan_str(s, i0, Seq::empty()) {
        None => None,
        Some((user_name, i3)) => {
            if !begins(s, i3, lit_company_id()) {
                None
            } else {
                match scan_str(s, i3 + lit_company_id().len(), Seq::empty()) {
                    None => None,
                    Some((company_id, i4)) => {
                        if !begins(s, i4, lit_company_name()) {
                            None
                        } else {
                            match scan_str(s, i4 + lit_company_name().len(), Seq::empty()) {
                                None => None,
                                Some((company_name, i5)) => parse_claims_times(
                                    s, user_id, level, user_name, company_id, company_name, i5),
                            }
                        }
                    },
                }
            }
        },
    }
}

/// Continues [`parse_claims_chars`] at the `exp` key.
pub open spec fn parse_claims_times(
    s: Seq<char>,
    user_id: Seq<char>,
    level: int,
    user_name: Seq<char>,
    company_id: Seq<char>,
    company_name: Seq<char>,
    i5: int,
) -> Option<ClaimsView> {
    if !begins(s, i5, lit_exp()) {
        None
    } else {
        match parse_int(s, i5 + lit_exp().len()) {
            None => None,
            Some((exp, i6)) => {
                if !(i64::MIN as int <= exp <= i64::MAX as int) {
                    None
                } else if !begins(s, i6, lit_iat()) {
                    None
                } else {
                    match parse_int(s, i6 + lit_iat().len()) {
                        None => None,
                        Some((iat, i7)) => {
                            if !(i64::MIN as int <= iat <= i64::MAX as int) {
                                None
                            } else {
                                let base = ClaimsView {
                                    user_id, level, user_name, company_id, company_name,
                                    exp, iat, scope: Option::None,
                                };
                                parse_claims_scope(s, base, i7)
                            }
                        },
                    }
                }
            },
        }
    }
}

/// Continues [`parse_claims_chars`] after the `iat` value: either the
/// closing brace, or the optional scope field and then the closing brace.
pub open spec fn parse_claims_scope(s: Seq<char>, base: ClaimsView, i7: int) -> Option<ClaimsView> {
    if 0 <= i7 < s.len() && s[i7] == '}' {
        if i7 + 1 == s.len() {
            Some(base)
        } else {
            None
        }
    } else if begins(s, i7, lit_scope()) {
        match scan_str(s, i7 + lit_scope().len(), Seq::empty()) {
            None => None,
            Some((sc, i8)) => {
                if i8 < s.len() && s[i8] == '}' && i8 + 1 == s.len() {
                    Some(ClaimsView { scope: Option::Some(sc), ..base })
                } else {
                    None
                }
            },
        }
    } else {
        None
    }
}


// ---------------------------------------------------------------------
// Round trip
// ---------------------------------------------------------------------

/// The closing part of the canonical text: scope when present, then `}`.
pub open spec fn jn_tail(c: ClaimsView) -> Seq<char> {
    match c.scope {
        Option::None => seq!['}'],
        Option::Some(sc) => lit_scope() + esc(sc) + seq!['"', '}'],
    }
}

/// The canonical text from the `exp` key on, grouped to the right.
pub open spec fn jn_times(c: ClaimsView) -> Seq<char> {
    lit_exp() + (dec_int(c.exp) + (lit_iat() + (dec_int(c.iat) + jn_tail(c))))
}

/// The canonical text from the `user_name` value on, grouped to the right.
pub open spec fn jn_mid(c: ClaimsView) -> Seq<char> {
    esc(c.user_name) + (seq!['"'] + (lit_company_id() + (esc(c.company_id) + (seq!['"']
        + (lit_company_name() + (esc(c.company_name) + (seq!['"'] + jn_times(c))))))))
}

/// The whole canonical text, grouped to the right.
pub open spec fn jn(c: ClaimsView) -> Seq<char> {
    lit_user_id() + (esc(c.user_id) + (seq!['"'] + (lit_level() + (dec_int(c.level)
        + (lit_user_name() + jn_mid(c))))))
}

/// Where the `user_name` value starts in the canonical text.
pub open spec fn p_mid(c: ClaimsView) -> int {
    lit_user_id().len() + esc(c.user_id).len() + 1 + lit_level().len()
        + dec_int(c.level).len() + lit_user_name().len() as int
}

/// Where the `exp` key starts in the canonical text.
pub open spec fn p_times(c: ClaimsView) -> int {
    p_mid(c) + esc(c.user_name).len() + 1 + lit_company_id().len()
        + esc(c.company_id).len() + 1 + lit_company_name().len()
        + esc(c.company_name).len() + 1int
}

/// The left-leaning canonical text equals its right-grouped form.
#[verifier::rlimit(100)]
#[verifier::spinoff_prover]
pub proof fn lemma_jn(c: ClaimsView)
    ensures
        json_chars_of(c) == jn(c),
{
    let c1 = lit_user_id();
    let c2 = esc(c.user_id);
    let c3 = seq!['"'];
    let c4 = lit_level();
    let c5 = dec_int(c.level);
    let c6 = lit_user_name();
    let c7 = esc(c.user_name);
    let c8 = seq!['"'];
    let c9 = lit_company_id();
    let c10 = esc(c.company_id);
    let c11 = seq!['"'];
    let c12 = lit_company_name();
    let c13 = esc(c.company_name);
    let c14 = seq!['"'];
    let c15 = lit_exp();
    let c16 = dec_int(c.exp);
    let c17 = lit_iat();
    let c18 = dec_int(c.iat);
    let c19 = jn_tail(c);
    let l1 = c1;
    let l2 = l1 + c2;
    let l3 = l2 + c3;
    let l4 = l3 + c4;
    let l5 = l4 + c5;
    let l6 = l5 + c6;
    let l7 = l6 + c7;
    let l8 = l7 + c8;
    let l9 = l8 + c9;
    let l10 = l9 + c10;
    let l11 = l10 + c11;
    let l12 = l11 + c12;
    let l13 = l12 + c13;
    let l14 = l13 + c14;
    let l15 = l14 + c15;
    let l16 = l15 + c16;
    let l17 = l16 + c17;
    let l18 = l17 + c18;
    let l19 = l18 + c19;
    let n19 = c19;
    let n18 = c18 + n19;
    let n17 = c17 + n18;
    let n16 = c16 + n17;
    let n15 = c15 + n16;
    let n14 = c14 + n15;
    let n13 = c13 + n14;
    let n12 = c12 + n13;
    let n11 = c11 + n12;
    let n10 = c10 + n11;
    let n9 = c9 + n10;
    let n8 = c8 + n9;
    let n7 = c7 + n8;
    let n6 = c6 + n7;
    let n5 = c5 + n6;
    let n4 = c4 + n5;
    let n3 = c3 + n4;
    let n2 = c2 + n3;
    let n1 = c1 + n2;
    assert(json_chars_of(c) == l19);
    assert(l18 + n19 =~= l17 + n18);
    assert(l17 + n18 =~= l16 + n17);
    assert(l16 + n17 =~= l15 + n16);
    assert(l15 + n16 =~= l14 + n15);
    assert(l14 + n15 =~= l13 + n14);
    assert(l13 + n14 =~= l12 + n13);
    assert(l12 + n13 =~= l11 + n12);
    assert(l11 + n12 =~= l10 + n11);
    assert(l10 + n11 =~= l9 + n10);
    assert(l9 + n10 =~= l8 + n9);
    assert(l8 + n9 =~= l7 + n8);
    assert(l7 + n8 =~= l6 + n7);
    assert(l6 + n7 =~= l5 + n6);
    assert(l5 + n6 =~= l4 + n5);
    assert(l4 + n5 =~= l3 + n4);
    assert(l3 + n4 =~= l2 + n3);
    assert(l2 + n3 =~= l1 + n2);
    assert(jn_mid(c) == c7 + (c8 + (c9 + (c10 + (c11 + (c12 + (c13 + (c14 + jn_times(c)))))))));
    assert(jn_times(c) == c15 + (c16 + (c17 + (c18 + c19))));
    assert(n7 =~= jn_mid(c));
    assert(jn(c) == n1);
}

/// The canonical text from the `level` key on, grouped to the right.
pub open spec fn jn_level(c: ClaimsView) -> Seq<char> {
    lit_level() + (dec_int(c.level) + (lit_user_name() + jn_mid(c)))
}

/// Where the `level` key starts in the canonical text.
pub open spec fn p_level(c: ClaimsView) -> int {
    lit_user_id().len() + esc(c.user_id).len() + 1int
}

/// Reading the opening of the canonical text: the `user_id` string.
#[verifier::rlimit(100)]
#[verifier::spinoff_prover]
pub proof fn lemma_rt_user(s: Seq<char>, c: ClaimsView)
    requires
        s == jn(c),
    ensures
        begins(s, 0, lit_user_id()),
        scan_str(s, lit_user_id().len() as int, Seq::empty()) == Some((c.user_id, p_level(c))),
        0 <= p_level(c),
        p_level(c) + jn_level(c).len() == s.len(),
        s.subrange(p_level(c), s.len() as int) == jn_level(c),
{
    let e = s.len() as int;
    let c1 = lit_user_id();
    let c2 = esc(c.user_id);
    let n3 = seq!['"'] + jn_level(c);
    assert(s.subrange(0, e) =~= c1 + (c2 + n3));
    lemma_split_prefix(s, 0, c1, c2 + n3);
    let p1 = c1.len() as int;
    assert(s.subrange(p1, e) =~= (c2 + seq!['"']) + jn_level(c));
    lemma_scan_esc(s, p1, Seq::empty(), c.user_id, jn_level(c));
    assert(Seq::empty() + c.user_id =~= c.user_id);
    lemma_split_prefix(s, p1, c2 + seq!['"'], jn_level(c));
}

/// Reading the head of the canonical text: `user_id` and `level`.
#[verifier::rlimit(100)]
#[verifier::spinoff_prover]
pub proof fn lemma_rt_head(s: Seq<char>, c: ClaimsView)
    requires
        crate::claims::fits(c),
        s == jn(c),
    ensures
        parse_claims_chars(s) == parse_claims_tail(s, c.user_id, c.level, p_mid(c)),
        s.subrange(p_mid(c), s.len() as int) == jn_mid(c),
{
    let e = s.len() as int;
    lemma_rt_user(s, c);
    let i1 = p_level(c);
    let n5 = dec_int(c.level) + (lit_user_name() + jn_mid(c));
    let n6 = lit_user_name() + jn_mid(c);
    lemma_split_prefix(s, i1, lit_level(), n5);
    let p2 = i1 + lit_level().len();
    lemma_split_prefix(s, p2, dec_int(c.level), n6);
    let i2 = p2 + dec_int(c.level).len();
    lemma_split_prefix(s, i2, lit_user_name(), jn_mid(c));
    assert(s[i2] == ',');
    assert(!is_digit(s[i2]));
    lemma_parse_dec(s, p2, c.level);
    assert(parse_int(s, p2) == Some((c.level, i2)));
    assert(i2 + lit_user_name().len() == p_mid(c));
}

/// Reading the middle of the canonical text: the three display strings.
#[verifier::rlimit(100)]
#[verifier::spinoff_prover]
pub proof fn lemma_rt_mid(s: Seq<char>, c: ClaimsView)
    requires
        crate::claims::fits(c),
        0 <= p_mid(c),
        p_mid(c) + jn_mid(c).len() == s.len(),
        s.subrange(p_mid(c), s.len() as int) == jn_mid(c),
    ensures
        parse_claims_tail(s, c.user_id, c.level, p_mid(c)) == parse_claims_times(
            s, c.user_id, c.level, c.user_name, c.company_id, c.company_name, p_times(c)),
        s.subrange(p_times(c), s.len() as int) == jn_times(c),
{
    let e = s.len() as int;
    let p3 = p_mid(c);
    let c7 = esc(c.user_name);
    let c10 = esc(c.company_id);
    let c13 = esc(c.company_name);
    let n8 = lit_company_id() + (c10 + (seq!['"'] + (lit_company_name() + (c13 + (seq!['"']
        + jn_times(c))))));
    let n9 = c10 + (seq!['"'] + (lit_company_name() + (c13 + (seq!['"'] + jn_times(c)))));
    let n11 = lit_company_name() + (c13 + (seq!['"'] + jn_times(c)));
    let n12 = c13 + (seq!['"'] + jn_times(c));
    assert(s.subrange(p3, e) =~= (c7 + seq!['"']) + n8);
    lemma_scan_esc(s, p3, Seq::empty(), c.user_name, n8);
    assert(Seq::empty() + c.user_name =~= c.user_name);
    lemma_split_prefix(s, p3, c7 + seq!['"'], n8);
    let i3 = p3 + c7.len() + 1;
    lemma_split_prefix(s, i3, lit_company_id(), n9);
    let p4 = i3 + lit_company_id().len();
    assert(s.subrange(p4, e) =~= (c10 + seq!['"']) + n11);
    lemma_scan_esc(s, p4, Seq::empty(), c.company_id, n11);
    assert(Seq::empty() + c.company_id =~= c.company_id);
    lemma_split_prefix(s, p4, c10 + seq!['"'], n11);
    let i4 = p4 + c10.len() + 1;
    lemma_split_prefix(s, i4, lit_company_name(), n12);
    let p5 = i4 + lit_company_name().len();
    assert(s.subrange(p5, e) =~= (c13 + seq!['"']) + jn_times(c));
    lemma_scan_esc(s, p5, Seq::empty(), c.company_name, jn_times(c));
    assert(Seq::empty() + c.company_name =~= c.company_name);
    lemma_split_prefix(s, p5, c13 + seq!['"'], jn_times(c));
    let i5 = p5 + c13.len() + 1;
    assert(i5 == p_times(c));
}

/// Reading the end of the canonical text: the two timestamps and the
/// optional scope.
#[verifier::rlimit(100)]
#[verifier::spinoff_prover]
pub proof fn lemma_rt_times(s: Seq<char>, c: ClaimsView)
    requires
        crate::claims::fits(c),
        0 <= p_times(c),
        p_times(c) + jn_times(c).len() == s.len(),
        s.subrange(p_times(c), s.len() as int) == jn_times(c),
    ensures
        parse_claims_times(s, c.user_id, c.level, c.user_name, c.company_id, c.company_name,
            p_times(c)) == Some(c),
{
    let e = s.len() as int;
    let i5 = p_times(c);
    let c16 = dec_int(c.exp);
    let c18 = dec_int(c.iat);
    let tail = jn_tail(c);
    let n17 = lit_iat() + (c18 + tail);
    let n18 = c18 + tail;
    lemma_split_prefix(s, i5, lit_exp(), c16 + n17);
    let p6 = i5 + lit_exp().len();
    lemma_split_prefix(s, p6, c16, n17);
    let i6 = p6 + c16.len();
    lemma_split_prefix(s, i6, lit_iat(), n18);
    assert(s[i6] == ',');
    assert(!is_digit(s[i6]));
    lemma_parse_dec(s, p6, c.exp);
    let p7 = i6 + lit_iat().len();
    lemma_split_prefix(s, p7, c18, tail);
    let i7 = p7 + c18.len();
    assert(s.subrange(i7, e) =~= tail + Seq::<char>::empty());
    lemma_split_prefix(s, i7, tail, Seq::<char>::empty());
    assert(tail.len() >= 1);
    assert(s[i7] == tail[0]);
    assert(!is_digit(tail[0]));
    lemma_parse_dec(s, p7, c.iat);
    let base = ClaimsView {
        user_id: c.user_id,
        level: c.level,
        user_name: c.user_name,
        company_id: c.company_id,
        company_name: c.company_name,
        exp: c.exp,
        iat: c.iat,
        scope: Option::None,
    };
    match c.scope {
        Option::None => {
            assert(s[i7] == '}');
            assert(i7 + 1 == e);
            assert(parse_claims_scope(s, base, i7) == Some(base));
            assert(base == c);
        },
        Option::Some(sc) => {
            assert(s[i7] == ',');
            assert(s.subrange(i7, e) =~= lit_scope() + (esc(sc) + seq!['"', '}']));
            lemma_split_prefix(s, i7, lit_scope(), esc(sc) + seq!['"', '}']);
            let p8 = i7 + lit_scope().len();
            assert(s.subrange(p8, e) =~= (esc(sc) + seq!['"']) + seq!['}']);
            lemma_scan_esc(s, p8, Seq::empty(), sc, seq!['}']);
            assert(Seq::empty() + sc =~= sc);
            lemma_split_prefix(s, p8, esc(sc) + seq!['"'], seq!['}']);
            let i8 = p8 + esc(sc).len() + 1;
            assert(s.subrange(i8, e) =~= seq!['}'] + Seq::<char>::empty());
            lemma_split_prefix(s, i8, seq!['}'], Seq::<char>::empty());
            assert(s[i8] == '}');
            assert(i8 + 1 == e);
            assert(parse_claims_scope(s, base, i7)
                == Some(ClaimsView { scope: Option::Some(sc), ..base }));
            assert(ClaimsView { scope: Option::Some(sc), ..base } == c);
        },
    }
}

/// Reading the canonical text of a claims value recovers that value.
pub proof fn lemma_parse_json_round_trip(c: ClaimsView)
    requires
        crate::claims::fits(c),
    ensures
        parse_claims_chars(json_chars_of(c)) == Some(c),
{
    lemma_jn(c);
    let s = jn(c);
    lemma_rt_head(s, c);
    assert(p_mid(c) + jn_mid(c).len() == s.len()) by {
        assert(s.subrange(p_mid(c), s.len() as int).len() == jn_mid(c).len());
    }
    lemma_rt_mid(s, c);
    assert(p_times(c) + jn_times(c).len() == s.len()) by {
        assert(s.subrange(p_times(c), s.len() as int).len() == jn_times(c).len());
    }
    lemma_rt_times(s, c);
}


// ---------------------------------------------------------------------
// Writing (executable)
// ---------------------------------------------------------------------

proof fn lemma_esc_one(x: char)
    ensures
        esc(seq![x]) == esc_char(x),
{
    reveal_with_fuel(esc, 2);
    assert(seq![x].len() == 1);
    assert(seq![x][0] == x);
    assert(seq![x].drop_first() =~= Seq::<char>::empty());
    assert(esc(seq![x]) == esc_char(x) + esc(Seq::<char>::empty()));
    assert(esc_char(x) + Seq::<char>::empty() =~= esc_char(x));
}

fn digit_to_char(d: u8) -> (r: char)
    requires
        d < 10,
    ensures
        r == digit_char(d as nat),
{
    if d == 0 { '0' }
    else if d == 1 { '1' }
    else if d == 2 { '2' }
    else if d == 3 { '3' }
    else if d == 4 { '4' }
    else if d == 5 { '5' }
    else if d == 6 { '6' }
    else if d == 7 { '7' }
    else if d == 8 { '8' }
    else { '9' }
}

fn push_dec_u64(out: &mut Vec<char>, m: u64)
    ensures
        final(out)@ == old(out)@ + dec_u(m as nat),
    decreases m,
{
    if m < 10 {
        out.push(digit_to_char(m as u8));
        assert(out@ =~= old(out)@ + dec_u(m as nat));
    } else {
        push_dec_u64(out, m / 10);
        out.push(digit_to_char((m % 10) as u8));
        assert(out@ =~= old(out)@ + dec_u(m as nat));
    }
}

fn push_dec_i64(out: &mut Vec<char>, n: i64)
    ensures
        final(out)@ == old(out)@ + dec_int(n as int),
{
    if n < 0 {
        out.push('-');
        let t: i64 = -(n + 1);
        let m: u64 = (t as u64) + 1;
        assert(m as nat == (-(n as int)) as nat);
        push_dec_u64(out, m);
        assert(out@ =~= old(out)@ + (seq!['-'] + dec_u(m as nat)));
    } else {
        push_dec_u64(out, n as u64);
    }
}

fn push_esc_str(out: &mut Vec<char>, s: &String)
    ensures
        final(out)@ == old(out)@ + esc(s@),
{
    let cs = crate::textio::str_to_chars(s.as_str());
    let n = cs.len();
    let mut i: usize = 0;
    proof {
        assert(cs@.take(0int) =~= Seq::<char>::empty());
        assert(out@ + Seq::<char>::empty() =~= out@);
        assert(esc(Seq::<char>::empty()) == Seq::<char>::empty());
    }
    while i < n
        invariant
            n == cs@.len(),
            i <= n,
            out@ == old(out)@ + esc(cs@.take(i as int)),
        decreases n - i,
    {
        let c = cs[i];
        proof {
            assert(cs@.take(i as int + 1) =~= cs@.take(i as int) + seq![c]);
            lemma_esc_append(cs@.take(i as int), seq![c]);
            lemma_esc_one(c);
        }
        if c == '"' || c == '\\' {
            out.push('\\');
            out.push(c);
            assert(out@ =~= old(out)@ + esc(cs@.take(i as int + 1)));
        } else {
            out.push(c);
            assert(out@ =~= old(out)@ + esc(cs@.take(i as int + 1)));
        }
        i = i + 1;
    }
    proof {
        assert(cs@.take(n as int) =~= s@);
    }
}

fn lit_user_id_chars() -> (r: Vec<char>)
    ensures
        r@ == lit_user_id(),
{
    let mut v: Vec<char> = Vec::new();
    v.push('{'); v.push('"'); v.push('u'); v.push('s'); v.push('e'); v.push('r');
    v.push('_'); v.push('i'); v.push('d'); v.push('"'); v.push(':'); v.push('"');
    assert(v@ =~= lit_user_id());
    v
}

fn lit_level_chars() -> (r: Vec<char>)
    ensures
        r@ == lit_level(),
{
    let mut v: Vec<char> = Vec::new();
    v.push(','); v.push('"'); v.push('l'); v.push('e'); v.push('v'); v.push('e');
    v.push('l'); v.push('"'); v.push(':');
    assert(v@ =~= lit_level());
    v
}

fn lit_user_name_chars() -> (r: Vec<char>)
    ensures
        r@ == lit_user_name(),
{
    let mut v: Vec<char> = Vec::new();
    v.push(','); v.push('"'); v.push('u'); v.push('s'); v.push('e'); v.push('r');
    v.push('_'); v.push('n'); v.push('a'); v.push('m'); v.push('e'); v.push('"');
    v.push(':'); v.push('"');
    assert(v@ =~= lit_user_name());
    v
}

fn lit_company_id_chars() -> (r: Vec<char>)
    ensures
        r@ == lit_company_id(),
{
    let mut v: Vec<char> = Vec::new();
    v.push(','); v.push('"'); v.push('c'); v.push('o'); v.push('m'); v.push('p');
    v.push('a'); v.push('n'); v.push('y'); v.push('_'); v.push('i'); v.push('d');
    v.push('"'); v.push(':'); v.push('"');
    assert(v@ =~= lit_company_id());
    v
}

fn lit_company_name_chars() -> (r: Vec<char>)
    ensures
        r@ == lit_company_name(),
{
    let mut v: Vec<char> = Vec::new();
    v.push(','); v.push('"'); v.push('c'); v.push('o'); v.push('m'); v.push('p');
    v.push('a'); v.push('n'); v.push('y'); v.push('_'); v.push('n'); v.push('a');
    v.push('m'); v.push('e'); v.push('"'); v.push(':'); v.push('"');
    assert(v@ =~= lit_company_name());
    v
}

fn lit_exp_chars() -> (r: Vec<char>)
    ensures
        r@ == lit_exp(),
{
    let mut v: Vec<char> = Vec::new();
    v.push(','); v.push('"'); v.push('e'); v.push('x'); v.push('p'); v.push('"');
    v.push(':');
    assert(v@ =~= lit_exp());
    v
}

fn lit_iat_chars() -> (r: Vec<char>)
    ensures
        r@ == lit_iat(),
{
    let mut v: Vec<char> = Vec::new();
    v.push(','); v.push('"'); v.push('i'); v.push('a'); v.push('t'); v.push('"');
    v.push(':');
    assert(v@ =~= lit_iat());
    v
}

fn lit_scope_chars() -> (r: Vec<char>)
    ensures
        r@ == lit_scope(),
{
    let mut v: Vec<char> = Vec::new();
    v.push(','); v.push('"'); v.push('s'); v.push('c'); v.push('o'); v.push('p');
    v.push('e'); v.push('"'); v.push(':'); v.push('"');
    assert(v@ =~= lit_scope());
    v
}

/// Writes the canonical text of a claims value.
#[verifier::rlimit(100)]
#[verifier::spinoff_prover]
pub fn claims_to_chars(c: &Claims) -> (r: Vec<char>)
    ensures
        r@ == json_chars_of(c@),
{
    let mut out: Vec<char> = Vec::new();
    let mut piece = lit_user_id_chars();
    out.append(&mut piece);
    assert(out@ =~= lit_user_id());
    push_esc_str(&mut out, &c.user_id);
    out.push('"');
    assert(out@ =~= lit_user_id() + esc(c@.user_id) + seq!['"']);
    let mut piece = lit_level_chars();
    out.append(&mut piece);
    push_dec_i64(&mut out, c.level as i64);
    let mut piece = lit_user_name_chars();
    out.append(&mut piece);
    push_esc_str(&mut out, &c.user_name);
    out.push('"');
    assert(out@ =~= lit_user_id() + esc(c@.user_id) + seq!['"'] + lit_level()
        + dec_int(c@.level) + lit_user_name() + esc(c@.user_name) + seq!['"']);
    let mut piece = lit_company_id_chars();
    out.append(&mut piece);
    push_esc_str(&mut out, &c.company_id);
    out.push('"');
    let mut piece = lit_company_name_chars();
    out.append(&mut piece);
    push_esc_str(&mut out, &c.company_name);
    out.push('"');
    let ghost head = lit_user_id() + esc(c@.user_id) + seq!['"'] + lit_level()
        + dec_int(c@.level) + lit_user_name() + esc(c@.user_name) + seq!['"']
        + lit_company_id() + esc(c@.company_id) + seq!['"']
        + lit_company_name() + esc(c@.company_name) + seq!['"'];
    assert(out@ =~= head);
    let mut piece = lit_exp_chars();
    out.append(&mut piece);
    push_dec_i64(&mut out, c.exp);
    let mut piece = lit_iat_chars();
    out.append(&mut piece);
    push_dec_i64(&mut out, c.iat);
    assert(out@ =~= head + lit_exp() + dec_int(c@.exp) + lit_iat() + dec_int(c@.iat));
    match &c.scope {
        Option::None => {
            out.push('}');
            assert(out@ =~= json_chars_of(c@));
        },
        Option::Some(sc) => {
            let mut piece = lit_scope_chars();
            out.append(&mut piece);
            push_esc_str(&mut out, sc);
            out.push('"');
            out.push('}');
            assert(out@ =~= json_chars_of(c@));
        },
    }
    out
}

// ---------------------------------------------------------------------
// Reading (executable)
// ---------------------------------------------------------------------

fn match_at(s: &Vec<char>, i: usize, pat: &Vec<char>) -> (r: bool)
    ensures
        r == begins(s@, i as int, pat@),
{
    if i > s.len() {
        return false;
    }
    if pat.len() > s.len() - i {
        return false;
    }
    let n = pat.len();
    let slen = s.len();
    let mut j: usize = 0;
    while j < n
        invariant
            n == pat@.len(),
            i + n <= s@.len(),
            s@.len() == slen,
            j <= n,
            forall|k: int| 0 <= k < j ==> s@[i + k] == pat@[k],
        decreases n - j,
    {
        if s[i + j] != pat[j] {
            proof {
                assert(s@.subrange(i as int, i + pat@.len())[j as int] == s@[i + j]);
            }
            return false;
        }
        j = j + 1;
    }
    proof {
        assert(s@.subrange(i as int, i + pat@.len()) =~= pat@);
    }
    true
}

fn scan_string_exec(s: &Vec<char>, start: usize) -> (r: Option<(Vec<char>, usize)>)
    ensures
        match r {
            Some(p) => scan_str(s@, start as int, Seq::empty()) == Some((p.0@, p.1 as int))
                && start <= p.1 <= s@.len(),
            None => scan_str(s@, start as int, Seq::empty()) is None,
        },
{
    let mut acc: Vec<char> = Vec::new();
    let mut j = start;
    proof {
        assert(acc@ =~= Seq::<char>::empty());
    }
    loop
        invariant
            start <= j,
            j <= usize::MAX,
            scan_str(s@, start as int, Seq::empty()) == scan_str(s@, j as int, acc@),
        decreases s@.len() - j,
    {
        if j >= s.len() {
            return None;
        }
        let c = s[j];
        if c == '"' {
            return Some((acc, j + 1));
        } else if c == '\\' {
            if j + 1 >= s.len() {
                return None;
            }
            let c2 = s[j + 1];
            if c2 == '"' || c2 == '\\' {
                acc.push(c2);
                j = j + 2;
            } else {
                return None;
            }
        } else {
            acc.push(c);
            j = j + 1;
        }
    }
}

fn scan_u64_exec(s: &Vec<char>, start: usize, cap: u64) -> (r: Option<(u64, usize)>)
    requires
        start <= s@.len(),
    ensures
        match r {
            Some(p) => scan_u(s@, start as int, 0, cap as nat) == Some((p.0 as nat, p.1 as int))
                && start <= p.1 <= s@.len() && p.0 <= cap,
            None => scan_u(s@, start as int, 0, cap as nat) is None,
        },
{
    let mut acc: u64 = 0;
    let mut j = start;
    loop
        invariant
            start <= j,
            j <= s@.len(),
            acc <= cap,
            scan_u(s@, start as int, 0, cap as nat) == scan_u(s@, j as int, acc as nat, cap as nat),
        decreases s@.len() - j,
    {
        if j >= s.len() {
            return Some((acc, j));
        }
        let u = s[j] as u32;
        if !(48 <= u && u <= 57) {
            assert(!is_digit(s@[j as int]));
            return Some((acc, j));
        }
        assert(is_digit(s@[j as int]));
        let d = (u - 48) as u64;
        let wide: u128 = acc as u128 * 10 + d as u128;
        if wide > cap as u128 {
            return None;
        }
        acc = wide as u64;
        j = j + 1;
    }
}

fn parse_int_exec(s: &Vec<char>, start: usize) -> (r: Option<(i64, usize)>)
    ensures
        match r {
            Some(p) => parse_int(s@, start as int) == Some((p.0 as int, p.1 as int))
                && start <= p.1 <= s@.len(),
            None => parse_int(s@, start as int) is None,
        },
{
    if start >= s.len() {
        return None;
    }
    let c = s[start];
    if c == '-' {
        if start + 1 >= s.len() {
            return None;
        }
        let u = s[start + 1] as u32;
        if !(48 <= u && u <= 57) {
            assert(!is_digit(s@[start as int + 1]));
            return None;
        }
        assert(is_digit(s@[start as int + 1]));
        match scan_u64_exec(s, start + 1, 9223372036854775808u64) {
            Option::Some(p) => {
                let (m, j) = p;
                let v: i64 = if m == 9223372036854775808u64 {
                    i64::MIN
                } else {
                    -(m as i64)
                };
                Some((v, j))
            },
            Option::None => None,
        }
    } else {
        let u = c as u32;
        if !(48 <= u && u <= 57) {
            assert(!is_digit(s@[start as int]));
            return None;
        }
        assert(is_digit(s@[start as int]));
        match scan_u64_exec(s, start, 9223372036854775807u64) {
            Option::Some(p) => {
                let (m, j) = p;
                Some((m as i64, j))
            },
            Option::None => None,
        }
    }
}

/// Reads the canonical text into a claims value; `None` unless the whole
/// input is exactly the canonical shape.
#[verifier::rlimit(100)]
#[verifier::spinoff_prover]
pub fn parse_claims(s: &Vec<char>) -> (r: Option<Claims>)
    ensures
        match r {
            Some(c) => parse_claims_chars(s@) == Some(c@),
            None => parse_claims_chars(s@) is None,
        },
{
    let slen = s.len();
    assert(s@.len() == slen);
    let lit1 = lit_user_id_chars();
    if !match_at(s, 0, &lit1) {
        return None;
    }
    assert(lit_user_id().len() == 12);
    let (uid, i1) = match scan_string_exec(s, 12) {
        Option::Some(p) => p,
        Option::None => { return None; },
    };
    let lit2 = lit_level_chars();
    if !match_at(s, i1, &lit2) {
        return None;
    }
    assert(lit_level().len() == 9);
    let (lvl, i2) = match parse_int_exec(s, i1 + 9) {
        Option::Some(p) => p,
        Option::None => { return None; },
    };
    if !(-2147483648i64 <= lvl && lvl <= 2147483647i64) {
        return None;
    }
    let level: i32 = lvl as i32;
    let lit3 = lit_user_name_chars();
    if !match_at(s, i2, &lit3) {
        return None;
    }
    assert(lit_user_name().len() == 14);
    let (un, i3) = match scan_string_exec(s, i2 + 14) {
        Option::Some(p) => p,
        Option::None => { return None; },
    };
    let lit4 = lit_company_id_chars();
    if !match_at(s, i3, &lit4) {
        return None;
    }
    assert(lit_company_id().len() == 15);
    let (cid, i4) = match scan_string_exec(s, i3 + 15) {
        Option::Some(p) => p,
        Option::None => { return None; },
    };
    let lit5 = lit_company_name_chars();
    if !match_at(s, i4, &lit5) {
        return None;
    }
    assert(lit_company_name().len() == 17);
    let (cn, i5) = match scan_string_exec(s, i4 + 17) {
        Option::Some(p) => p,
        Option::None => { return None; },
    };
    let lit6 = lit_exp_chars();
    if !match_at(s, i5, &lit6) {
        return None;
    }
    assert(lit_exp().len() == 7);
    let (exp, i6) = match parse_int_exec(s, i5 + 7) {
        Option::Some(p) => p,
        Option::None => { return None; },
    };
    let lit7 = lit_iat_chars();
    if !match_at(s, i6, &lit7) {
        return None;
    }
    assert(lit_iat().len() == 7);
    let (iat, i7) = match parse_int_exec(s, i6 + 7) {
        Option::Some(p) => p,
        Option::None => { return None; },
    };
    let scope: Option<String>;
    if i7 < s.len() && s[i7] == '}' {
        if i7 + 1 != s.len() {
            return None;
        }
        scope = Option::None;
        let out = Claims {
            user_id: crate::textio::chars_to_string(&uid),
            level,
            user_name: crate::textio::chars_to_string(&un),
            company_id: crate::textio::chars_to_string(&cid),
            company_name: crate::textio::chars_to_string(&cn),
            exp,
            iat,
            scope,
        };
        return Some(out);
    }
    let lit8 = lit_scope_chars();
    if !match_at(s, i7, &lit8) {
        return None;
    }
    assert(lit_scope().len() == 10);
    let (sc, i8) = match scan_string_exec(s, i7 + 10) {
        Option::Some(p) => p,
        Option::None => { return None; },
    };
    if !(i8 < s.len() && s[i8] == '}' && i8 + 1 == s.len()) {
        return None;
    }
    scope = Option::Some(crate::textio::chars_to_string(&sc));
    let out = Claims {
        user_id: crate::textio::chars_to_string(&uid),
        level,
        user_name: crate::textio::chars_to_string(&un),
        company_id: crate::textio::chars_to_string(&cid),
        company_name: crate::textio::chars_to_string(&cn),
        exp,
        iat,
        scope,
    };
    Some(out)
}

} // verus!
