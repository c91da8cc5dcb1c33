use vstd::prelude::*;

verus! {

/// A score as its decimal literal writes it: a sign, the digits of the
/// mantissa with the point removed, how many of them stand after the point,
/// and an optional exponent (its sign and digits; no digits, no exponent).
/// Its value is `(-1)^negative * digits * 10^(exponent - scale)`.
#[derive(PartialEq, Eq, Debug)]
pub struct Score {
    pub negative: bool,
    pub digits: Vec<char>,
    pub scale: usize,
    pub exp_negative: bool,
    pub exp_digits: Vec<char>,
}

pub struct ScoreView {
    pub negative: bool,
    pub digits: Seq<char>,
    pub scale: nat,
    pub exp_negative: bool,
    pub exp_digits: Seq<char>,
}

impl View for Score {
    type V = ScoreView;

    open spec fn view(&self) -> ScoreView {
        ScoreView {
            negative: self.negative,
            digits: self.digits@,
            scale: self.scale as nat,
            exp_negative: self.exp_negative,
            exp_digits: self.exp_digits@,
        }
    }
}

pub open spec fn is_digit(c: char) -> bool {
    '0' <= c <= '9'
}

pub open spec fn all_digits(s: Seq<char>) -> bool {
    forall|i: int| 0 <= i < s.len() ==> is_digit(#[trigger] s[i])
}

pub open spec fn is_exp_mark(c: char) -> bool {
    c == 'e' || c == 'E'
}

/// Where the text after an optional sign starts.
pub open spec fn sign_len(s: Seq<char>) -> int {
    if s.len() > 0 && (s[0] == '-' || s[0] == '+') {
        1
    } else {
        0
    }
}

/// An exponent's text after its mark: an optional sign, then digits.
pub open spec fn exponent_ok(t: Seq<char>) -> bool {
    let u = t.subrange(sign_len(t), t.len() as int);
    u.len() > 0 && all_digits(u)
}

/// In `body`, the point stands at `k` and the mantissa ends at `j`: digits,
/// a point, digits (at least one digit in all), then the end or an exponent.
pub open spec fn split_at(body: Seq<char>, k: int, j: int) -> bool {
    0 <= k < j <= body.len() && j >= 2 && body[k] == '.' && all_digits(body.subrange(0, k))
        && all_digits(body.subrange(k + 1, j)) && (j == body.len() || (is_exp_mark(body[j])
        && exponent_ok(body.subrange(j + 1, body.len() as int))))
}

/// The score that the floating-point literal `s` writes, where `s` has a
/// decimal point: `[+-] digits '.' digits [(e|E) [+-] digits]`.
pub open spec fn decimal_of(s: Seq<char>) -> Option<ScoreView> {
    let body = s.subrange(sign_len(s), s.len() as int);
    if exists|k: int, j: int| split_at(body, k, j) {
        let (k, j) = choose|k: int, j: int| split_at(body, k, j);
        let t = body.subrange(j + 1, body.len() as int);
        Some(
            ScoreView {
                negative: s.len() > 0 && s[0] == '-',
                digits: body.subrange(0, k) + body.subrange(k + 1, j),
                scale: (j - k - 1) as nat,
                exp_negative: j < body.len() && t.len() > 0 && t[0] == '-',
                exp_digits: if j < body.len() {
                    t.subrange(sign_len(t), t.len() as int)
                } else {
                    Seq::empty()
                },
            },
        )
    } else {
        None
    }
}

/// A run of digits from `lo` ends at the first non-digit: two ends of such
/// a run are the same.
proof fn lemma_run_end(body: Seq<char>, lo: int, k: int, k2: int)
    requires
        0 <= lo <= k <= body.len(),
        lo <= k2 <= body.len(),
        all_digits(body.subrange(lo, k)),
        k == body.len() || !is_digit(body[k]),
        all_digits(body.subrange(lo, k2)),
        k2 == body.len() || !is_digit(body[k2]),
    ensures
        k == k2,
{
    if k2 < k {
        assert(body.subrange(lo, k)[k2 - lo] == body[k2]);
    } else if k < k2 {
        assert(body.subrange(lo, k2)[k - lo] == body[k]);
    }
}

/// The point and the end of the mantissa are fixed by the text.
proof fn lemma_split_unique(body: Seq<char>, k: int, j: int, k2: int, j2: int)
    requires
        split_at(body, k, j),
        split_at(body, k2, j2),
    ensures
        k == k2 && j == j2,
{
    lemma_run_end(body, 0, k, k2);
    lemma_run_end(body, k + 1, j, j2);
}

#[verifier::rlimit(100)]
/// Reads the floating-point literal `s`, which is to hold a decimal point.
pub fn parse_decimal(s: &Vec<char>) -> (r: Option<Score>)
    ensures
        match r {
            Some(x) => decimal_of(s@) == Some(x@),
            None => decimal_of(s@) is None,
        },
{
    let n = s.len();
    let mut start: usize = 0;
    if n > 0 && (s[0] == '-' || s[0] == '+') {
        start = 1;
    }
    let negative = n > 0 && s[0] == '-';
    let ghost body = s@.subrange(start as int, n as int);
    assert(start as int == sign_len(s@));
    let mut i: usize = start;
    let mut digits: Vec<char> = Vec::new();
    while i < n && '0' <= s[i] && s[i] <= '9'
        invariant
            start <= i <= n == s@.len(),
            body == s@.subrange(start as int, n as int),
            digits@ == s@.subrange(start as int, i as int),
            all_digits(digits@),
        decreases n - i,
    {
        digits.push(s[i]);
        i = i + 1;
        assert(digits@ =~= s@.subrange(start as int, i as int));
    }
    let k = i - start;
    assert(body.subrange(0, k as int) =~= digits@);
    assert(k == body.len() || !is_digit(body[k as int]));
    if i == n || s[i] != '.' {
        assert forall|k2: int, j2: int| !split_at(body, k2, j2) by {
            if split_at(body, k2, j2) {
                lemma_run_end(body, 0, k as int, k2);
            }
        }
        return None;
    }
    let ghost before = digits@;
    assert(all_digits(before));
    i = i + 1;
    while i < n && '0' <= s[i] && s[i] <= '9'
        invariant
            start + k < i <= n == s@.len(),
            body == s@.subrange(start as int, n as int),
            before == s@.subrange(start as int, start + k),
            digits@ == before + s@.subrange(start + k + 1, i as int),
            all_digits(digits@),
        decreases n - i,
    {
        digits.push(s[i]);
        i = i + 1;
        assert(digits@ =~= before + s@.subrange(start + k + 1, i as int));
    }
    let j = i - start;
    assert(body.subrange(k + 1, j as int) =~= s@.subrange(start + k + 1, i as int));
    assert(j == body.len() || !is_digit(body[j as int]));
    assert(all_digits(body.subrange(0, k as int)));
    assert forall|m: int| 0 <= m < j - k - 1 implies is_digit(
        #[trigger] body.subrange(k + 1, j as int)[m],
    ) by {
        assert(digits@[k + m] == body.subrange(k + 1, j as int)[m]);
    }
    let scale = j - k - 1;
    let mut exp_negative = false;
    let mut exp_digits: Vec<char> = Vec::new();
    if j < 2 || (i < n && s[i] != 'e' && s[i] != 'E') {
        assert forall|k2: int, j2: int| !split_at(body, k2, j2) by {
            if split_at(body, k2, j2) {
                lemma_run_end(body, 0, k as int, k2);
                lemma_run_end(body, k + 1, j as int, j2);
            }
        }
        return None;
    }
    if i < n {
        assert(body[j as int] == s@[i as int]);
        assert(is_exp_mark(body[j as int]));
        i = i + 1;
        let e0 = i;
        if i < n && (s[i] == '-' || s[i] == '+') {
            exp_negative = s[i] == '-';
            i = i + 1;
        }
        let e1 = i;
        while i < n && '0' <= s[i] && s[i] <= '9'
            invariant
                e1 <= i <= n == s@.len(),
                exp_digits@ == s@.subrange(e1 as int, i as int),
                all_digits(exp_digits@),
            decreases n - i,
        {
            exp_digits.push(s[i]);
            i = i + 1;
            assert(exp_digits@ =~= s@.subrange(e1 as int, i as int));
        }
        let ghost t = body.subrange(j + 1, body.len() as int);
        assert(t =~= s@.subrange(e0 as int, n as int));
        assert(sign_len(t) == e1 - e0);
        let ghost u = t.subrange(sign_len(t), t.len() as int);
        assert(u =~= s@.subrange(e1 as int, n as int));
        if exp_digits.len() == 0 || i < n {
            assert(!exponent_ok(t)) by {
                if exponent_ok(t) && i < n {
                    assert(u[i - e1] == s@[i as int]);
                }
            }
            assert forall|k2: int, j2: int| !split_at(body, k2, j2) by {
                if split_at(body, k2, j2) {
                    lemma_run_end(body, 0, k as int, k2);
                    lemma_run_end(body, k + 1, j as int, j2);
                }
            }
            return None;
        }
        assert(u =~= exp_digits@);
        assert(exp_negative == (t.len() > 0 && t[0] == '-'));
        assert(exponent_ok(t));
    }
    assert(split_at(body, k as int, j as int));
    assert forall|k2: int, j2: int| split_at(body, k2, j2) implies k2 == k && j2 == j by {
        lemma_split_unique(body, k as int, j as int, k2, j2);
    }
    assert(body.subrange(0, k as int) + body.subrange(k + 1, j as int) =~= digits@);
    Some(Score { negative, digits, scale, exp_negative, exp_digits })
}

/// A score that a report can write: at least one digit, at most all of them
/// after the point, and a sign on the exponent only where it has digits.
pub open spec fn score_ok(x: ScoreView) -> bool {
    x.digits.len() >= 1 && all_digits(x.digits) && x.scale <= x.digits.len() && all_digits(
        x.exp_digits,
    ) && (x.exp_negative ==> x.exp_digits.len() > 0)
}

/// How a report writes the integer part of `x`: sign, digits, point.
pub open spec fn render_int(x: ScoreView) -> Seq<char> {
    let sign = if x.negative {
        seq!['-']
    } else {
        Seq::empty()
    };
    sign + x.digits.subrange(0, x.digits.len() - x.scale) + seq!['.']
}

/// How a report writes the fractional part of `x`: the digits after the
/// point, then the exponent, if any.
pub open spec fn render_frac(x: ScoreView) -> Seq<char> {
    let exp = if x.exp_digits.len() > 0 {
        seq!['e'] + (if x.exp_negative {
            seq!['-']
        } else {
            Seq::empty()
        }) + x.exp_digits
    } else {
        Seq::empty()
    };
    x.digits.subrange(x.digits.len() - x.scale, x.digits.len() as int) + exp
}

/// A body made of digits, a point, digits and an optional exponent splits
/// where the point and the exponent stand.
proof fn lemma_body_split(whole: Seq<char>, part: Seq<char>, exp: Seq<char>)
    requires
        all_digits(whole),
        all_digits(part),
        whole.len() + part.len() >= 1,
        exp.len() == 0 || (exp[0] == 'e' && exponent_ok(exp.drop_first())),
    ensures
        ({
            let body = whole + seq!['.'] + part + exp;
            let k = whole.len() as int;
            let j = whole.len() + part.len() + 1int;
            &&& split_at(body, k, j)
            &&& body.subrange(0, k) + body.subrange(k + 1, j) == whole + part
            &&& j - k - 1 == part.len()
            &&& (exp.len() == 0 <==> j == body.len())
            &&& exp.len() > 0 ==> body.subrange(j + 1, body.len() as int) == exp.drop_first()
        }),
{
    let body = whole + seq!['.'] + part + exp;
    let k = whole.len() as int;
    let j = whole.len() + part.len() + 1int;
    assert(body.subrange(0, k) =~= whole);
    assert(body.subrange(k + 1, j) =~= part);
    assert(body[k] == '.');
    if exp.len() > 0 {
        assert(body[j] == exp[0]);
        assert(body.subrange(j + 1, body.len() as int) =~= exp.drop_first());
    }
    assert(body.subrange(0, k) + body.subrange(k + 1, j) =~= whole + part);
}

/// The rendered exponent of `x`: a mark, then a sign only where negative,
/// then the digits.
proof fn lemma_exp_render(x: ScoreView)
    requires
        score_ok(x),
        x.exp_digits.len() > 0,
    ensures
        ({
            let t = (if x.exp_negative {
                seq!['-']
            } else {
                Seq::empty()
            }) + x.exp_digits;
            &&& exponent_ok(t)
            &&& t.subrange(sign_len(t), t.len() as int) == x.exp_digits
            &&& (t.len() > 0 && t[0] == '-') == x.exp_negative
        }),
{
    let t = (if x.exp_negative {
        seq!['-']
    } else {
        Seq::<char>::empty()
    }) + x.exp_digits;
    if !x.exp_negative {
        assert(t[0] == x.exp_digits[0]);
        assert(t =~= x.exp_digits);
    }
    assert(t.subrange(sign_len(t), t.len() as int) =~= x.exp_digits);
}

#[verifier::rlimit(100)]
/// Decoding inverts rendering: the two fragments of `x`, written one after
/// the other, read back as `x`, and the integer fragment ends in a point.
pub proof fn lemma_decode_render(x: ScoreView)
    requires
        score_ok(x),
    ensures
        render_int(x).len() > 0,
        render_int(x).last() == '.',
        decimal_of(render_int(x) + render_frac(x)) == Some(x),
{
    let a = x.digits.len() - x.scale;
    let whole = x.digits.subrange(0, a);
    let part = x.digits.subrange(a, x.digits.len() as int);
    let esign = if x.exp_negative {
        seq!['-']
    } else {
        Seq::<char>::empty()
    };
    let exp = if x.exp_digits.len() > 0 {
        seq!['e'] + esign + x.exp_digits
    } else {
        Seq::empty()
    };
    let sign = if x.negative {
        seq!['-']
    } else {
        Seq::empty()
    };
    let body = whole + seq!['.'] + part + exp;
    let s = render_int(x) + render_frac(x);
    assert(s =~= sign + body);
    assert(whole + part =~= x.digits);
    if x.exp_digits.len() > 0 {
        lemma_exp_render(x);
        assert(exp.drop_first() =~= esign + x.exp_digits);
    }
    lemma_body_split(whole, part, exp);
    let k = whole.len() as int;
    let j = whole.len() + part.len() + 1int;
    if !x.negative {
        assert(s[0] == body[0]);
        if a > 0 {
            assert(body[0] == x.digits[0]);
        }
    }
    assert(s.subrange(sign_len(s), s.len() as int) =~= body);
    assert forall|k2: int, j2: int| split_at(body, k2, j2) implies k2 == k && j2 == j by {
        lemma_split_unique(body, k, j, k2, j2);
    }
    let (k2, j2) = choose|k2: int, j2: int| split_at(body, k2, j2);
    assert(k2 == k && j2 == j);
    let t = body.subrange(j + 1, body.len() as int);
    if x.exp_digits.len() > 0 {
        assert(t == esign + x.exp_digits);
    }
}

} // verus!
