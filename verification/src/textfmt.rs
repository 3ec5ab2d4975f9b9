//! Byte-exact decimal rendering and parsing of 64-bit integers, as the
//! read-state store's line format uses them.
use vstd::prelude::*;

verus! {

pub const PLUS: u8 = 43;
pub const MINUS: u8 = 45;

pub open spec fn is_digit(c: u8) -> bool {
    48 <= c && c <= 57
}

/// The decimal digits of `n`, most significant first: no sign, and no
/// leading zero (zero itself is the single digit `0`).
pub open spec fn spec_udigits(n: nat) -> Seq<u8>
    decreases n,
{
    if n < 10 {
        seq![(48 + n) as u8]
    } else {
        spec_udigits(n / 10).push((48 + n % 10) as u8)
    }
}

/// The decimal text of a possibly negative value: a `-` sign, then digits.
pub open spec fn spec_i64_text(v: int) -> Seq<u8> {
    if v >= 0 {
        spec_udigits(v as nat)
    } else {
        seq![MINUS] + spec_udigits((-v) as nat)
    }
}

pub open spec fn all_digits(s: Seq<u8>) -> bool {
    forall|i: int| 0 <= i < s.len() ==> is_digit(#[trigger] s[i])
}

/// The value of a digit string, most significant first.
pub open spec fn udigits_val(s: Seq<u8>) -> nat
    decreases s.len(),
{
    if s.len() == 0 {
        0
    } else {
        udigits_val(s.drop_last()) * 10 + (s.last() - 48) as nat
    }
}

/// What a signed decimal text means: one optional `+` or `-`, then at least
/// one digit, and the value must fit an `i64`; anything else does not parse.
pub open spec fn spec_parse_i64(s: Seq<u8>) -> Option<int> {
    let digits = if s.len() > 0 && (s[0] == PLUS || s[0] == MINUS) {
        s.drop_first()
    } else {
        s
    };
    let neg = s.len() > 0 && s[0] == MINUS;
    if digits.len() == 0 || !all_digits(digits) {
        None
    } else {
        let v = if neg {
            -(udigits_val(digits) as int)
        } else {
            udigits_val(digits) as int
        };
        if i64::MIN <= v <= i64::MAX {
            Some(v)
        } else {
            None
        }
    }
}

/// What an unsigned decimal text means: one optional `+`, then at least one
/// digit, and the value must fit a `u64`.
pub open spec fn spec_parse_u64(s: Seq<u8>) -> Option<int> {
    let digits = if s.len() > 0 && s[0] == PLUS {
        s.drop_first()
    } else {
        s
    };
    if digits.len() == 0 || !all_digits(digits) {
        None
    } else if udigits_val(digits) <= u64::MAX {
        Some(udigits_val(digits) as int)
    } else {
        None
    }
}

/// The digit string of `n` is nonempty, all digits, and evaluates back to `n`.
pub proof fn lemma_udigits(n: nat)
    ensures
        spec_udigits(n).len() >= 1,
        all_digits(spec_udigits(n)),
        udigits_val(spec_udigits(n)) == n,
    decreases n,
{
    if n < 10 {
        assert(spec_udigits(n).drop_last() =~= Seq::<u8>::empty());
        assert(spec_udigits(n).last() == (48 + n) as u8);
        assert(udigits_val(spec_udigits(n)) == udigits_val(Seq::<u8>::empty()) * 10 + ((48
            + n) as u8 - 48) as nat);
    } else {
        lemma_udigits(n / 10);
        assert(spec_udigits(n).drop_last() =~= spec_udigits(n / 10));
        assert(udigits_val(spec_udigits(n)) == (n / 10) * 10 + n % 10);
    }
}

/// A value's decimal text holds only digits and a possible leading sign,
/// so neither a comma nor a newline ever appears in it.
pub proof fn lemma_i64_text_bytes(v: int)
    ensures
        forall|i: int|
            0 <= i < spec_i64_text(v).len() ==> (is_digit(#[trigger] spec_i64_text(v)[i])
                || spec_i64_text(v)[i] == MINUS),
{
    if v >= 0 {
        lemma_udigits(v as nat);
    } else {
        lemma_udigits((-v) as nat);
        assert forall|i: int|
            0 <= i < spec_i64_text(v).len() implies (is_digit(#[trigger] spec_i64_text(v)[i])
            || spec_i64_text(v)[i] == MINUS) by {
            if i > 0 {
                assert(spec_i64_text(v)[i] == spec_udigits((-v) as nat)[i - 1]);
            }
        }
    }
}

/// Rendering then parsing a value gives the value back.
pub proof fn lemma_i64_text_parses(v: int)
    requires
        i64::MIN <= v <= i64::MAX,
    ensures
        spec_parse_i64(spec_i64_text(v)) == Some(v),
{
    if v >= 0 {
        lemma_udigits(v as nat);
        let s = spec_udigits(v as nat);
        assert(is_digit(s[0]));
        assert(s[0] != PLUS && s[0] != MINUS);
    } else {
        lemma_udigits((-v) as nat);
        let s = spec_i64_text(v);
        assert(s[0] == MINUS);
        assert(s.drop_first() =~= spec_udigits((-v) as nat));
    }
}

/// A digit-string prefix never evaluates above the whole string.
pub proof fn lemma_udigits_val_prefix(s: Seq<u8>, j: int)
    requires
        0 <= j <= s.len(),
    ensures
        udigits_val(s.take(j)) <= udigits_val(s),
    decreases s.len() - j,
{
    if j < s.len() {
        lemma_udigits_val_prefix(s, j + 1);
        assert(s.take(j + 1).drop_last() =~= s.take(j));
        assert(udigits_val(s.take(j + 1)) == udigits_val(s.take(j)) * 10 + (s.take(j + 1).last()
            - 48) as nat);
    } else {
        assert(s.take(j) =~= s);
    }
}

/// The decimal digits of `n`, most significant first.
pub fn format_u64(n: u64) -> (r: Vec<u8>)
    ensures
        r@ == spec_udigits(n as nat),
{
    if n == 0 {
        let mut r: Vec<u8> = Vec::new();
        r.push(48);
        proof {
            assert(r@ =~= spec_udigits(0));
        }
        return r;
    }
    let mut rev: Vec<u8> = Vec::new();
    let mut m: u64 = n;
    proof {
        assert(spec_udigits(n as nat) =~= spec_udigits(m as nat) + rev@.reverse());
    }
    while m > 0
        invariant
            m > 0 || rev@.len() > 0,
            spec_udigits(n as nat) =~= if m > 0 {
                spec_udigits(m as nat) + rev@.reverse()
            } else {
                rev@.reverse()
            },
        decreases m,
    {
        let d: u8 = (m % 10) as u8 + 48;
        let m2: u64 = m / 10;
        proof {
            let ghost rev2 = rev@.push(d);
            assert(rev2.reverse() =~= seq![d] + rev@.reverse());
            if m2 > 0 {
                assert(spec_udigits(m as nat) =~= spec_udigits(m2 as nat).push(d));
                assert(spec_udigits(m2 as nat).push(d) + rev@.reverse() =~= spec_udigits(
                    m2 as nat,
                ) + (seq![d] + rev@.reverse()));
            } else {
                assert(spec_udigits(m as nat) =~= seq![d]);
                assert(seq![d] + rev@.reverse() =~= rev2.reverse());
            }
        }
        rev.push(d);
        m = m2;
    }
    let mut out: Vec<u8> = Vec::new();
    let mut i: usize = rev.len();
    while i > 0
        invariant
            i <= rev@.len(),
            out@.len() == rev@.len() - i,
            forall|j: int| 0 <= j < out@.len() ==> out@[j] == rev@[rev@.len() - 1 - j],
        decreases i,
    {
        i = i - 1;
        out.push(rev[i]);
    }
    proof {
        assert(out@ =~= rev@.reverse());
    }
    out
}

/// The decimal text of a signed value.
pub fn format_i64(v: i64) -> (r: Vec<u8>)
    ensures
        r@ == spec_i64_text(v as int),
{
    if v >= 0 {
        format_u64(v as u64)
    } else {
        let mag: u64 = ((-(v + 1)) as u64) + 1;
        proof {
            assert(mag as int == -(v as int));
        }
        let mut out: Vec<u8> = Vec::new();
        out.push(MINUS);
        let mut d = format_u64(mag);
        out.append(&mut d);
        proof {
            assert(out@ =~= seq![MINUS] + spec_udigits((-(v as int)) as nat));
        }
        out
    }
}

/// Parse the digit run `s[from..to]` with an inclusive value cap; `None`
/// when the run is empty, holds a non-digit, or evaluates above the cap.
fn parse_digits_limited(s: &Vec<u8>, from: usize, to: usize, limit: u64) -> (r: Option<u64>)
    requires
        from <= to <= s@.len(),
    ensures
        ({
            let d = s@.subrange(from as int, to as int);
            match r {
                Some(a) => d.len() > 0 && all_digits(d) && udigits_val(d) == a && a <= limit,
                None => d.len() == 0 || !all_digits(d) || udigits_val(d) > limit,
            }
        }),
{
    let ghost d = s@.subrange(from as int, to as int);
    if from == to {
        return None;
    }
    let mut acc: u64 = 0;
    let mut i: usize = from;
    proof {
        assert(d.take(0) =~= Seq::<u8>::empty());
    }
    while i < to
        invariant
            from <= i <= to <= s@.len(),
            d == s@.subrange(from as int, to as int),
            all_digits(d.take(i - from)),
            acc == udigits_val(d.take(i - from)),
            acc <= limit,
        decreases to - i,
    {
        let c = s[i];
        proof {
            assert(d[i - from] == c);
        }
        if c < 48 || c > 57 {
            proof {
                assert(!is_digit(d[i - from]));
            }
            return None;
        }
        let dv: u64 = (c - 48) as u64;
        proof {
            assert(d.take(i - from + 1).drop_last() =~= d.take(i - from));
            assert(udigits_val(d.take(i - from + 1)) == acc * 10 + dv);
        }
        if dv > limit || acc > (limit - dv) / 10 {
            proof {
                assert(acc * 10 + dv > limit);
                lemma_udigits_val_prefix(d, i - from + 1);
                assert(udigits_val(d) > limit);
            }
            return None;
        }
        proof {
            assert(acc * 10 + dv <= limit);
        }
        acc = acc * 10 + dv;
        i = i + 1;
    }
    proof {
        assert(d.take(to - from) =~= d);
    }
    Some(acc)
}

/// Parse the signed decimal text `s[from..to]` exactly as `spec_parse_i64`
/// reads it.
pub fn parse_i64_range(s: &Vec<u8>, from: usize, to: usize) -> (r: Option<i64>)
    requires
        from <= to <= s@.len(),
    ensures
        ({
            let sp = spec_parse_i64(s@.subrange(from as int, to as int));
            match r {
                Some(x) => sp == Some(x as int),
                None => sp is None,
            }
        }),
{
    let ghost t = s@.subrange(from as int, to as int);
    let mut neg: bool = false;
    let mut di: usize = from;
    if from < to && (s[from] == PLUS || s[from] == MINUS) {
        neg = s[from] == MINUS;
        di = from + 1;
        proof {
            assert(t.drop_first() =~= s@.subrange(di as int, to as int));
        }
    } else {
        proof {
            assert(t =~= s@.subrange(di as int, to as int));
        }
    }
    let limit: u64 = if neg {
        9223372036854775808
    } else {
        9223372036854775807
    };
    let r = parse_digits_limited(s, di, to, limit);
    match r {
        None => None,
        Some(a) => {
            if neg {
                if a == 9223372036854775808 {
                    Some(i64::MIN)
                } else {
                    Some(-(a as i64))
                }
            } else {
                Some(a as i64)
            }
        },
    }
}

/// Parse the unsigned decimal text `s[from..to]` exactly as `spec_parse_u64`
/// reads it.
pub fn parse_u64_range(s: &Vec<u8>, from: usize, to: usize) -> (r: Option<u64>)
    requires
        from <= to <= s@.len(),
    ensures
        ({
            let sp = spec_parse_u64(s@.subrange(from as int, to as int));
            match r {
                Some(x) => sp == Some(x as int),
                None => sp is None,
            }
        }),
{
    let ghost t = s@.subrange(from as int, to as int);
    let mut di: usize = from;
    if from < to && s[from] == PLUS {
        di = from + 1;
        proof {
            assert(t.drop_first() =~= s@.subrange(di as int, to as int));
        }
    } else {
        proof {
            assert(t =~= s@.subrange(di as int, to as int));
        }
    }
    parse_digits_limited(s, di, to, u64::MAX)
}

} // verus!
