use vstd::prelude::*;
use vstd::slice::slice_subrange;

use crate::codec::is_space;

verus! {

pub const DOT: u8 = 0x2E;

pub open spec fn is_digit(b: u8) -> bool {
    0x30u8 <= b <= 0x39u8
}

pub open spec fn is_sign(b: u8) -> bool {
    b == 0x2Bu8 || b == 0x2Du8
}

pub open spec fn is_exp_mark(b: u8) -> bool {
    b == 0x65u8 || b == 0x45u8
}

pub open spec fn all_digits(s: Seq<u8>) -> bool {
    forall|i: int| 0 <= i < s.len() ==> is_digit(#[trigger] s[i])
}

/// Digits with at most one decimal point, and at least one digit.
pub open spec fn is_mantissa(s: Seq<u8>) -> bool {
    &&& forall|i: int| 0 <= i < s.len() ==> is_digit(#[trigger] s[i]) || s[i] == DOT
    &&& forall|i: int, j: int|
        0 <= i < s.len() && 0 <= j < s.len() && #[trigger] s[i] == DOT && #[trigger] s[j] == DOT
            ==> i == j
    &&& exists|i: int| 0 <= i < s.len() && is_digit(#[trigger] s[i])
}

/// `e` or `E`, an optional sign, then one digit or more.
pub open spec fn is_exponent(s: Seq<u8>) -> bool {
    &&& s.len() >= 2
    &&& is_exp_mark(s[0])
    &&& if is_sign(s[1]) {
        s.len() >= 3 && all_digits(s.skip(2))
    } else {
        all_digits(s.skip(1))
    }
}

pub open spec fn is_decimal(s: Seq<u8>) -> bool {
    ||| is_mantissa(s)
    ||| exists|e: int| 0 < e < s.len() && is_mantissa(s.take(e)) && #[trigger] is_exponent(s.skip(e))
}

pub open spec fn to_lower(b: u8) -> u8 {
    if 0x41u8 <= b <= 0x5Au8 {
        (b + 32) as u8
    } else {
        b
    }
}

/// `s` spells the lower-case word `w`, ignoring ASCII case.
pub open spec fn spells(s: Seq<u8>, w: Seq<u8>) -> bool {
    s.len() == w.len() && forall|i: int| 0 <= i < s.len() ==> to_lower(#[trigger] s[i]) == w[i]
}

pub open spec fn word_inf() -> Seq<u8> {
    seq![0x69u8, 0x6Eu8, 0x66u8]
}

pub open spec fn word_infinity() -> Seq<u8> {
    seq![0x69u8, 0x6Eu8, 0x66u8, 0x69u8, 0x6Eu8, 0x69u8, 0x74u8, 0x79u8]
}

pub open spec fn word_nan() -> Seq<u8> {
    seq![0x6Eu8, 0x61u8, 0x6Eu8]
}

pub open spec fn is_unsigned_number(s: Seq<u8>) -> bool {
    spells(s, word_inf()) || spells(s, word_infinity()) || spells(s, word_nan()) || is_decimal(s)
}

/// The text of a floating-point number as `f32`'s `FromStr` accepts it:
/// an optional sign, then `inf`, `infinity`, `nan` (in any case) or a
/// decimal with an optional exponent.
pub open spec fn is_number(s: Seq<u8>) -> bool {
    if s.len() > 0 && is_sign(s[0]) {
        is_unsigned_number(s.skip(1))
    } else {
        is_unsigned_number(s)
    }
}

/// The text of the negated number: a leading sign is flipped, and an
/// unsigned text gains a minus sign.
pub open spec fn negate(s: Seq<u8>) -> Seq<u8> {
    if s.len() > 0 && s[0] == 0x2Du8 {
        s.skip(1)
    } else if s.len() > 0 && s[0] == 0x2Bu8 {
        seq![0x2Du8] + s.skip(1)
    } else {
        seq![0x2Du8] + s
    }
}

fn byte_is_digit(b: u8) -> (r: bool)
    ensures
        r == is_digit(b),
{
    0x30u8 <= b && b <= 0x39u8
}

fn check_all_digits(s: &[u8]) -> (r: bool)
    ensures
        r == all_digits(s@),
{
    let mut i: usize = 0;
    while i < s.len()
        invariant
            i <= s.len(),
            forall|k: int| 0 <= k < i ==> is_digit(#[trigger] s@[k]),
        decreases s.len() - i,
    {
        if !byte_is_digit(s[i]) {
            return false;
        }
        i = i + 1;
    }
    true
}

fn check_mantissa(s: &[u8]) -> (r: bool)
    ensures
        r == is_mantissa(s@),
{
    let mut i: usize = 0;
    let mut dot = false;
    let mut digit = false;
    while i < s.len()
        invariant
            i <= s.len(),
            forall|k: int| 0 <= k < i ==> is_digit(#[trigger] s@[k]) || s@[k] == DOT,
            forall|k: int, j: int|
                0 <= k < i && 0 <= j < i && #[trigger] s@[k] == DOT && #[trigger] s@[j] == DOT
                    ==> k == j,
            dot == (exists|k: int| 0 <= k < i && #[trigger] s@[k] == DOT),
            digit == (exists|k: int| 0 <= k < i && is_digit(#[trigger] s@[k])),
        decreases s.len() - i,
    {
        let c = s[i];
        if byte_is_digit(c) {
            digit = true;
        } else if c == DOT {
            if dot {
                proof {
                    let k = choose|k: int| 0 <= k < i && #[trigger] s@[k] == DOT;
                    assert(s@[k] == DOT && s@[i as int] == DOT);
                }
                return false;
            }
            dot = true;
        } else {
            assert(!(is_digit(s@[i as int]) || s@[i as int] == DOT));
            return false;
        }
        i = i + 1;
    }
    digit
}

fn check_exponent(s: &[u8]) -> (r: bool)
    ensures
        r == is_exponent(s@),
{
    if s.len() < 2 || !(s[0] == 0x65u8 || s[0] == 0x45u8) {
        return false;
    }
    if s[1] == 0x2Bu8 || s[1] == 0x2Du8 {
        s.len() >= 3 && check_all_digits(slice_subrange(s, 2, s.len()))
    } else {
        check_all_digits(slice_subrange(s, 1, s.len()))
    }
}

fn check_decimal(s: &[u8]) -> (r: bool)
    ensures
        r == is_decimal(s@),
{
    let mut k: usize = 0;
    while k < s.len() && !(s[k] == 0x65u8 || s[k] == 0x45u8)
        invariant
            k <= s.len(),
            forall|j: int| 0 <= j < k ==> !is_exp_mark(#[trigger] s@[j]),
        decreases s.len() - k,
    {
        k = k + 1;
    }
    if k == s.len() {
        let r = check_mantissa(s);
        proof {
            if !r {
                assert forall|e: int| 0 < e < s@.len() implies !is_exponent(#[trigger] s@.skip(e)) by {
                    assert(s@.skip(e)[0] == s@[e]);
                }
            }
        }
        r
    } else {
        let head = slice_subrange(s, 0, k);
        let tail = slice_subrange(s, k, s.len());
        let m = check_mantissa(head);
        let x = check_exponent(tail);
        proof {
            let sq = s@;
            assert(!is_mantissa(sq)) by {
                assert(!is_digit(sq[k as int]) && sq[k as int] != DOT);
            }
            assert(head@ =~= sq.take(k as int));
            assert(tail@ =~= sq.skip(k as int));
            if m && x {
                assert(k > 0) by {
                    if k == 0 {
                        let i = choose|i: int| 0 <= i < head@.len() && is_digit(#[trigger] head@[i]);
                    }
                }
                assert(is_exponent(sq.skip(k as int)));
            }
            if is_decimal(sq) {
                let e = choose|e: int|
                    0 < e < sq.len() && is_mantissa(sq.take(e)) && #[trigger] is_exponent(sq.skip(e));
                assert(sq.skip(e)[0] == sq[e]);
                if e < k {
                } else if e > k {
                    assert(sq.take(e)[k as int] == sq[k as int]);
                }
                assert(e == k);
            }
        }
        m && x
    }
}

fn check_word(s: &[u8], w: &[u8]) -> (r: bool)
    ensures
        r == spells(s@, w@),
{
    if s.len() != w.len() {
        return false;
    }
    let mut i: usize = 0;
    while i < s.len()
        invariant
            i <= s.len(),
            s@.len() == w@.len(),
            forall|k: int| 0 <= k < i ==> to_lower(#[trigger] s@[k]) == w@[k],
        decreases s.len() - i,
    {
        let c = s[i];
        let lower = if 0x41u8 <= c && c <= 0x5Au8 {
            c + 32
        } else {
            c
        };
        if lower != w[i] {
            return false;
        }
        i = i + 1;
    }
    true
}

fn check_unsigned(s: &[u8]) -> (r: bool)
    ensures
        r == is_unsigned_number(s@),
{
    let inf: [u8; 3] = [0x69u8, 0x6Eu8, 0x66u8];
    let infinity: [u8; 8] = [0x69u8, 0x6Eu8, 0x66u8, 0x69u8, 0x6Eu8, 0x69u8, 0x74u8, 0x79u8];
    let nan: [u8; 3] = [0x6Eu8, 0x61u8, 0x6Eu8];
    assert(inf@ =~= word_inf());
    assert(infinity@ =~= word_infinity());
    assert(nan@ =~= word_nan());
    check_word(s, &inf) || check_word(s, &infinity) || check_word(s, &nan) || check_decimal(s)
}

/// The text of a number holds no whitespace and is never empty.
pub proof fn lemma_number_is_word(s: Seq<u8>)
    requires
        is_number(s),
    ensures
        s.len() > 0,
        forall|i: int| 0 <= i < s.len() ==> !is_space(#[trigger] s[i]),
{
    let u = if s.len() > 0 && is_sign(s[0]) {
        s.skip(1)
    } else {
        s
    };
    lemma_unsigned_is_word(u);
    if s.len() > 0 && is_sign(s[0]) {
        assert forall|i: int| 0 <= i < s.len() implies !is_space(#[trigger] s[i]) by {
            if i > 0 {
                assert(u[i - 1] == s[i]);
            }
        }
    }
}

proof fn lemma_unsigned_is_word(u: Seq<u8>)
    requires
        is_unsigned_number(u),
    ensures
        u.len() > 0,
        !is_sign(u[0]),
        forall|i: int| 0 <= i < u.len() ==> !is_space(#[trigger] u[i]),
{
    if spells(u, word_inf()) || spells(u, word_infinity()) || spells(u, word_nan()) {
        assert(u.len() > 0);
        assert(to_lower(u[0]) == 0x69u8 || to_lower(u[0]) == 0x6Eu8);
        assert forall|i: int| 0 <= i < u.len() implies !is_space(#[trigger] u[i]) by {
            assert(to_lower(u[i]) != u[i] || !is_space(u[i]));
        }
    } else if is_mantissa(u) {
        let k = choose|k: int| 0 <= k < u.len() && is_digit(#[trigger] u[k]);
        assert(is_digit(u[0]) || u[0] == DOT);
    } else {
        let e = choose|e: int|
            0 < e < u.len() && is_mantissa(u.take(e)) && #[trigger] is_exponent(u.skip(e));
        let m = u.take(e);
        let x = u.skip(e);
        assert(is_digit(m[0]) || m[0] == DOT);
        assert forall|i: int| 0 <= i < u.len() implies !is_space(#[trigger] u[i]) by {
            if i < e {
                assert(m[i] == u[i]);
                assert(is_digit(m[i]) || m[i] == DOT);
            } else {
                assert(x[i - e] == u[i]);
                if i - e >= 2 {
                    if is_sign(x[1]) {
                        assert(x.skip(2)[i - e - 2] == x[i - e]);
                    } else {
                        assert(x.skip(1)[i - e - 1] == x[i - e]);
                    }
                } else if i - e == 1 && !is_sign(x[1]) {
                    assert(x.skip(1)[0] == x[1]);
                }
            }
        }
    }
}

/// The negation of a number's text is again a number's text.
pub proof fn lemma_negate_number(s: Seq<u8>)
    requires
        is_number(s),
    ensures
        is_number(negate(s)),
{
    if s.len() > 0 && s[0] == 0x2Du8 {
        lemma_unsigned_is_word(s.skip(1));
    } else if s.len() > 0 && s[0] == 0x2Bu8 {
        assert((seq![0x2Du8] + s.skip(1)).skip(1) =~= s.skip(1));
    } else {
        assert((seq![0x2Du8] + s).skip(1) =~= s);
    }
}

/// Whether `s` is the text of a floating-point number.
pub fn check_number(s: &[u8]) -> (r: bool)
    ensures
        r == is_number(s@),
{
    if s.len() > 0 && (s[0] == 0x2Bu8 || s[0] == 0x2Du8) {
        check_unsigned(slice_subrange(s, 1, s.len()))
    } else {
        check_unsigned(s)
    }
}

/// One coordinate of a position, held as the text of a floating-point
/// number: the number it denotes is the one that text reads as.
pub struct Coord {
    text: Vec<u8>,
}

impl View for Coord {
    type V = Seq<u8>;

    closed spec fn view(&self) -> Seq<u8> {
        self.text@
    }
}

impl Coord {
    #[verifier::type_invariant]
    spec fn inv(self) -> bool {
        is_number(self.text@)
    }

    /// The coordinate written as `text`, if that is a number's text.
    pub fn from_text(text: &[u8]) -> (r: Option<Coord>)
        ensures
            r is Some <==> is_number(text@),
            r matches Some(c) ==> c@ == text@,
    {
        if check_number(text) {
            let mut v: Vec<u8> = Vec::new();
            push_all(&mut v, text);
            assert(v@ =~= text@);
            Some(Coord { text: v })
        } else {
            None
        }
    }

    /// The coordinate's text.
    pub fn text(&self) -> (r: &[u8])
        ensures
            r@ == self@,
            is_number(r@),
    {
        proof {
            use_type_invariant(self);
        }
        self.text.as_slice()
    }

    /// The coordinate with the opposite sign.
    pub fn negated(&self) -> (r: Coord)
        ensures
            r@ == negate(self@),
    {
        proof {
            use_type_invariant(self);
            lemma_negate_number(self.text@);
        }
        let t = self.text.as_slice();
        let mut v: Vec<u8> = Vec::new();
        if t.len() > 0 && t[0] == 0x2Du8 {
            push_all(&mut v, slice_subrange(t, 1, t.len()));
        } else if t.len() > 0 && t[0] == 0x2Bu8 {
            v.push(0x2Du8);
            push_all(&mut v, slice_subrange(t, 1, t.len()));
        } else {
            v.push(0x2Du8);
            push_all(&mut v, t);
        }
        assert(v@ =~= negate(self.text@));
        Coord { text: v }
    }
}

impl Clone for Coord {
    fn clone(&self) -> (r: Coord)
        ensures
            r@ == self@,
    {
        proof {
            use_type_invariant(self);
        }
        let mut v: Vec<u8> = Vec::new();
        push_all(&mut v, self.text.as_slice());
        assert(v@ =~= self.text@);
        Coord { text: v }
    }
}

/// Appends the bytes of `s` to `out`.
pub fn push_all(out: &mut Vec<u8>, s: &[u8])
    ensures
        final(out)@ == old(out)@ + s@,
{
    let mut i: usize = 0;
    while i < s.len()
        invariant
            i <= s.len(),
            out@ == old(out)@ + s@.take(i as int),
        decreases s.len() - i,
    {
        out.push(s[i]);
        assert(s@.take(i as int + 1) =~= s@.take(i as int).push(s@[i as int]));
        i = i + 1;
    }
    assert(s@.take(s@.len() as int) =~= s@);
}

} // verus!
