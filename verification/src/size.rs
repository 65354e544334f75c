//! Sizes written in config, such as `512`, `1.5 GiB` or `64MB`.
//!
//! A size is a number, optionally with a fraction and a sign, followed by a
//! unit: decimal (`k`, `m`, `g`, `t`, with or without `b`) or binary (`kib`,
//! `mib`, `gib`, `tib`), in any case, or none for bytes. The byte count is the
//! number times the unit, rounded down; a negative size is zero and one too
//! large for 64 bits is the largest 64-bit count. The fraction is read to
//! eighteen digits, beyond which it cannot change a byte count of any size a
//! unit here can produce by more than a rounding step.

use vstd::prelude::*;

use crate::text::{chars_of, push_all, push_str, string_of};

verus! {

/// Whether `c` is whitespace, as `char::is_whitespace` reads it.
pub open spec fn is_ws(c: char) -> bool {
    let u: u32 = c as u32;
    (9 <= u <= 13) || u == 32 || u == 0x85 || u == 0xA0 || u == 0x1680 || (0x2000 <= u <= 0x200A)
        || u == 0x2028 || u == 0x2029 || u == 0x202F || u == 0x205F || u == 0x3000
}

fn ws(c: char) -> (r: bool)
    ensures
        r == is_ws(c),
{
    let u: u32 = c as u32;
    (9 <= u && u <= 13) || u == 32 || u == 0x85 || u == 0xA0 || u == 0x1680 || (0x2000 <= u && u
        <= 0x200A) || u == 0x2028 || u == 0x2029 || u == 0x202F || u == 0x205F || u == 0x3000
}

pub open spec fn trim_start(s: Seq<char>) -> Seq<char>
    decreases s.len(),
{
    if s.len() > 0 && is_ws(s[0]) { trim_start(s.drop_first()) } else { s }
}

pub open spec fn trim_end(s: Seq<char>) -> Seq<char>
    decreases s.len(),
{
    if s.len() > 0 && is_ws(s.last()) { trim_end(s.drop_last()) } else { s }
}

/// `s` without leading and trailing whitespace.
pub open spec fn trim(s: Seq<char>) -> Seq<char> {
    trim_end(trim_start(s))
}

/// `s[from..to]` without leading and trailing whitespace.
pub fn trimmed(cs: &Vec<char>, from: usize, to: usize) -> (r: Vec<char>)
    requires
        from <= to <= cs.len(),
    ensures
        r@ == trim(cs@.subrange(from as int, to as int)),
{
    let mut lo: usize = from;
    while lo < to && ws(cs[lo])
        invariant
            from <= lo <= to <= cs.len(),
            trim_start(cs@.subrange(from as int, to as int)) == trim_start(cs@.subrange(lo as int, to as int)),
        decreases to - lo,
    {
        assert(cs@.subrange(lo as int, to as int).drop_first() =~= cs@.subrange(lo + 1, to as int));
        lo = lo + 1;
    }
    assert(trim_start(cs@.subrange(lo as int, to as int)) == cs@.subrange(lo as int, to as int));
    let mut hi: usize = to;
    while hi > lo && ws(cs[hi - 1])
        invariant
            from <= lo <= hi <= to <= cs.len(),
            trim_end(cs@.subrange(lo as int, to as int)) == trim_end(cs@.subrange(lo as int, hi as int)),
        decreases hi - lo,
    {
        assert(cs@.subrange(lo as int, hi as int).drop_last() =~= cs@.subrange(lo as int, hi - 1));
        hi = hi - 1;
    }
    assert(trim_end(cs@.subrange(lo as int, hi as int)) == cs@.subrange(lo as int, hi as int));
    let mut r: Vec<char> = Vec::new();
    let mut i: usize = lo;
    while i < hi
        invariant
            lo <= i <= hi <= cs.len(),
            r@ == cs@.subrange(lo as int, i as int),
        decreases hi - i,
    {
        r.push(cs[i]);
        i = i + 1;
        assert(r@ =~= cs@.subrange(lo as int, i as int));
    }
    r
}

pub open spec fn is_alpha(c: char) -> bool {
    ('a' <= c && c <= 'z') || ('A' <= c && c <= 'Z')
}

pub open spec fn first_alpha(s: Seq<char>, i: int) -> bool {
    0 <= i < s.len() && is_alpha(s[i]) && forall|j: int| 0 <= j < i ==> !is_alpha(s[j])
}

/// Where the number ends and the unit begins: at the first ASCII letter.
pub open spec fn split_at_spec(s: Seq<char>) -> int {
    if exists|i: int| first_alpha(s, i) { choose|i: int| first_alpha(s, i) } else { s.len() as int }
}

pub open spec fn lower(c: char) -> char {
    if 'A' <= c && c <= 'Z' { ((c as u32) + 32) as char } else { c }
}

pub open spec fn lowercase(s: Seq<char>) -> Seq<char> {
    s.map_values(|c: char| lower(c))
}

pub open spec fn is_digit(c: char) -> bool {
    '0' <= c && c <= '9'
}

pub open spec fn digit_value(c: char) -> nat {
    ((c as u32) - 48) as nat
}

/// The value of a run of decimal digits.
pub open spec fn digits_value(s: Seq<char>) -> nat
    decreases s.len(),
{
    if s.len() == 0 { 0 } else { digits_value(s.drop_last()) * 10 + digit_value(s.last()) }
}

pub open spec fn pow10(k: nat) -> nat
    decreases k,
{
    if k == 0 { 1 } else { 10 * pow10((k - 1) as nat) }
}

pub open spec fn all_digits(s: Seq<char>) -> bool {
    forall|i: int| 0 <= i < s.len() ==> is_digit(s[i])
}

/// A number: an optional sign, then digits with at most one `.` among
/// them, and at least one digit.
pub struct NumberView {
    pub negative: bool,
    pub whole: Seq<char>,
    pub fraction: Seq<char>,
}

/// Whether `body` has its point at `d`, with digits on either side.
pub open spec fn point_at(body: Seq<char>, d: int) -> bool {
    0 <= d < body.len() && body[d] == '.' && all_digits(body.subrange(0, d)) && all_digits(
        body.subrange(d + 1, body.len() as int),
    ) && body.len() > 1
}

pub open spec fn point_of(body: Seq<char>) -> int {
    choose|d: int| point_at(body, d)
}

pub open spec fn has_sign(n: Seq<char>) -> bool {
    n.len() > 0 && (n[0] == '+' || n[0] == '-')
}

pub open spec fn number_body(n: Seq<char>) -> Seq<char> {
    if has_sign(n) { n.drop_first() } else { n }
}

pub open spec fn number_spec(n: Seq<char>) -> Option<NumberView> {
    let body = number_body(n);
    let negative = has_sign(n) && n[0] == '-';
    if all_digits(body) && body.len() > 0 {
        Some(NumberView { negative, whole: body, fraction: seq![] })
    } else if exists|d: int| point_at(body, d) {
        let d = point_of(body);
        Some(NumberView {
            negative,
            whole: body.subrange(0, d),
            fraction: body.subrange(d + 1, body.len() as int),
        })
    } else {
        None
    }
}

/// The multiplier a unit stands for.
pub open spec fn unit_spec(u: Seq<char>) -> Option<nat> {
    if u == Seq::<char>::empty() || u == "b"@ {
        Some(1)
    } else if u == "k"@ || u == "kb"@ {
        Some(1000)
    } else if u == "kib"@ {
        Some(1024)
    } else if u == "m"@ || u == "mb"@ {
        Some(1000000)
    } else if u == "mib"@ {
        Some(1048576)
    } else if u == "g"@ || u == "gb"@ {
        Some(1000000000)
    } else if u == "gib"@ {
        Some(1073741824)
    } else if u == "t"@ || u == "tb"@ {
        Some(1000000000000)
    } else if u == "tib"@ {
        Some(1099511627776)
    } else {
        None
    }
}

pub open spec fn min_nat(a: nat, b: nat) -> nat {
    if a <= b { a } else { b }
}

/// The byte count a number and a multiplier make.
pub open spec fn bytes_spec(n: NumberView, m: nat) -> nat {
    if n.negative {
        0
    } else {
        let k = min_nat(n.fraction.len(), 18);
        let f = digits_value(n.fraction.subrange(0, k as int));
        min_nat(digits_value(n.whole) * m + (f * m) / pow10(k), u64::MAX as nat)
    }
}

/// What a size text means, or why it means nothing.
pub open spec fn parse_size_spec(spec: Seq<char>) -> Result<u64, Seq<char>> {
    let s = trim(spec);
    let split = split_at_spec(s);
    let number = trim(s.subrange(0, split));
    let unit = lowercase(trim(s.subrange(split, s.len() as int)));
    match number_spec(number) {
        None => Err("invalid size `"@ + s + "`"@),
        Some(n) => match unit_spec(unit) {
            None => Err("unknown size suffix `"@ + unit + "` in `"@ + s + "`"@),
            Some(m) => Ok(bytes_spec(n, m) as u64),
        },
    }
}

fn ascii_alpha(c: char) -> (r: bool)
    ensures
        r == is_alpha(c),
{
    ('a' <= c && c <= 'z') || ('A' <= c && c <= 'Z')
}

fn lower_char(c: char) -> (r: char)
    ensures
        r == lower(c),
{
    if 'A' <= c && c <= 'Z' {
        let b: u8 = c as u8;
        assert(b as int == c as u32 as int);
        let l: u8 = b + 32;
        l as char
    } else {
        c
    }
}

fn lowercased(v: &Vec<char>) -> (r: Vec<char>)
    ensures
        r@ == lowercase(v@),
{
    let mut r: Vec<char> = Vec::new();
    let mut i: usize = 0;
    while i < v.len()
        invariant
            i <= v.len(),
            r@ == lowercase(v@.subrange(0, i as int)),
        decreases v.len() - i,
    {
        r.push(lower_char(v[i]));
        i = i + 1;
        assert(r@ =~= lowercase(v@.subrange(0, i as int)));
    }
    assert(v@.subrange(0, v.len() as int) =~= v@);
    r
}

fn same_text(v: &Vec<char>, s: &str) -> (r: bool)
    ensures
        r == (v@ == s@),
{
    let t = chars_of(s);
    if v.len() != t.len() {
        return false;
    }
    let mut i: usize = 0;
    while i < v.len()
        invariant
            i <= v.len(),
            v.len() == t.len(),
            t@ == s@,
            forall|j: int| 0 <= j < i ==> v@[j] == t@[j],
        decreases v.len() - i,
    {
        if v[i] != t[i] {
            return false;
        }
        i = i + 1;
    }
    assert(v@ =~= t@);
    true
}

fn unit(u: &Vec<char>) -> (r: Option<u64>)
    ensures
        match r {
            Some(m) => unit_spec(u@) == Some(m as nat),
            None => unit_spec(u@) is None,
        },
        r matches Some(m) ==> 1 <= m <= 1099511627776,
{
    if u.len() == 0 {
        assert(u@ =~= Seq::<char>::empty());
        Some(1)
    } else if same_text(u, "b") {
        Some(1)
    } else if same_text(u, "k") || same_text(u, "kb") {
        Some(1000)
    } else if same_text(u, "kib") {
        Some(1024)
    } else if same_text(u, "m") || same_text(u, "mb") {
        Some(1000000)
    } else if same_text(u, "mib") {
        Some(1048576)
    } else if same_text(u, "g") || same_text(u, "gb") {
        Some(1000000000)
    } else if same_text(u, "gib") {
        Some(1073741824)
    } else if same_text(u, "t") || same_text(u, "tb") {
        Some(1000000000000)
    } else if same_text(u, "tib") {
        Some(1099511627776)
    } else {
        None
    }
}

/// The value of a run of digits, held exactly below `10^20` and otherwise
/// reported as at least that.
fn read_digits(v: &Vec<char>, from: usize, to: usize) -> (r: (u128, bool))
    requires
        from <= to <= v.len(),
        all_digits(v@.subrange(from as int, to as int)),
    ensures
        !r.1 ==> r.0 == digits_value(v@.subrange(from as int, to as int)) && r.0 < 100000000000000000000,
        r.1 ==> digits_value(v@.subrange(from as int, to as int)) >= 100000000000000000000,
{
    let mut acc: u128 = 0;
    let mut big = false;
    let mut i: usize = from;
    while i < to
        invariant
            from <= i <= to <= v.len(),
            all_digits(v@.subrange(from as int, to as int)),
            !big ==> acc == digits_value(v@.subrange(from as int, i as int)) && acc < 100000000000000000000,
            big ==> digits_value(v@.subrange(from as int, i as int)) >= 100000000000000000000,
        decreases to - i,
    {
        let ghost prefix = v@.subrange(from as int, i + 1);
        assert(prefix.drop_last() =~= v@.subrange(from as int, i as int));
        assert(prefix.last() == v@[i as int]);
        assert(is_digit(v@.subrange(from as int, to as int)[i - from]));
        let d: u32 = (v[i] as u32) - 48;
        if !big {
            let next: u128 = acc * 10 + d as u128;
            if next >= 100000000000000000000 {
                big = true;
            } else {
                acc = next;
            }
        } else {
            assert(digits_value(prefix) >= digits_value(prefix.drop_last()));
        }
        i = i + 1;
    }
    (acc, big)
}

/// The value of at most the first eighteen digits of `v[from..to]`, and how
/// many that was.
fn read_fraction(v: &Vec<char>, from: usize, to: usize) -> (r: (u64, usize))
    requires
        from <= to <= v.len(),
        all_digits(v@.subrange(from as int, to as int)),
    ensures
        r.1 == min_nat((to - from) as nat, 18),
        r.0 == digits_value(v@.subrange(from as int, to as int).subrange(0, r.1 as int)),
        r.0 < pow10(r.1 as nat),
{
    let mut acc: u64 = 0;
    let mut k: usize = 0;
    let ghost s = v@.subrange(from as int, to as int);
    proof {
        reveal_with_fuel(pow10, 19);
    }
    assert(pow10(18) == 1000000000000000000);
    while k < 18 && from + k < to
        invariant
            from <= to <= v.len(),
            k <= 18,
            from + k <= to,
            s == v@.subrange(from as int, to as int),
            all_digits(s),
            acc == digits_value(s.subrange(0, k as int)),
            acc < pow10(k as nat),
            pow10(k as nat) <= 1000000000000000000,
            pow10(18) == 1000000000000000000,
        decreases 18 - k,
    {
        assert(is_digit(s[k as int]));
        let d: u32 = (v[from + k] as u32) - 48;
        assert(s.subrange(0, k + 1).drop_last() =~= s.subrange(0, k as int));
        assert(acc * 10 + d < 10 * pow10(k as nat)) by (nonlinear_arith)
            requires acc < pow10(k as nat), d < 10;
        assert(10 * pow10(k as nat) == pow10((k + 1) as nat));
        acc = acc * 10 + d as u64;
        k = k + 1;
        proof {
            lemma_pow10_monotone(k as nat, 18);
        }
    }
    (acc, k)
}

/// Reads a number: its sign, and where its whole and fractional digits are.
fn read_number(number: &Vec<char>) -> (r: Option<(bool, usize, usize, usize)>)
    ensures
        r is None <==> number_spec(number@) is None,
        r matches Some((negative, start, whole_end, frac_start)) ==> {
            &&& start <= whole_end <= number.len()
            &&& frac_start <= number.len()
            &&& number_spec(number@) == Some(NumberView {
                negative,
                whole: number@.subrange(start as int, whole_end as int),
                fraction: number@.subrange(frac_start as int, number.len() as int),
            })
        },
{
    // The number: a sign, then digits around at most one point.
    let signed = number.len() > 0 && (number[0] == '+' || number[0] == '-');
    let negative = signed && number[0] == '-';
    let start: usize = if signed { 1 } else { 0 };
    let ghost body = if signed { number@.drop_first() } else { number@ };
    assert(body =~= number@.subrange(start as int, number.len() as int));
    let mut dot: Option<usize> = None;
    let mut ok = true;
    let mut i: usize = start;
    while i < number.len()
        invariant
            start <= i <= number.len(),
            body == number@.subrange(start as int, number.len() as int),
            body == number_body(number@),
            ok ==> match dot {
                None => all_digits(number@.subrange(start as int, i as int)),
                Some(d) => start <= d < i && number@[d as int] == '.'
                    && all_digits(number@.subrange(start as int, d as int))
                    && all_digits(number@.subrange(d + 1, i as int)),
            },
            !ok ==> number_spec(number@) is None,
        decreases number.len() - i,
    {
        let c = number[i];
        if ok {
            if '0' <= c && c <= '9' {
                proof {
                    match dot {
                        None => {
                            assert(number@.subrange(start as int, i + 1) =~= number@.subrange(start as int, i as int).push(c));
                        },
                        Some(d) => {
                            assert(number@.subrange(d + 1, i + 1) =~= number@.subrange(d + 1, i as int).push(c));
                        },
                    }
                }
            } else if c == '.' && dot.is_none() {
                dot = Some(i);
                assert(number@.subrange(i + 1, i + 1) =~= seq![]);
            } else {
                proof {
                    let bi: int = i - start;
                    assert(body[bi] == c);
                    assert(!is_digit(c));
                    assert(!all_digits(body));
                    assert forall|d: int| point_at(body, d) implies false by {
                        if d < bi {
                            assert(body.subrange(d + 1, body.len() as int)[bi - d - 1] == c);
                        } else if d > bi {
                            assert(body.subrange(0, d)[bi] == c);
                        } else {
                            assert(c == '.');
                            match dot {
                                Some(dd) => {
                                    let dr: int = dd - start;
                                    assert(body[dr] == '.');
                                    assert(body.subrange(0, d)[dr] == '.');
                                },
                                None => {
                                    assert(false);
                                },
                            }
                        }
                    }
                }
                ok = false;
            }
        }
        i = i + 1;
    }
    let mut invalid = !ok;
    let mut whole_end: usize = number.len();
    let mut frac_start: usize = number.len();
    if ok {
        match dot {
            None => {
                if number.len() == start {
                    invalid = true;
                    assert(body.len() == 0);
                }
            },
            Some(d) => {
                if number.len() - start <= 1 {
                    invalid = true;
                    proof {
                        assert(body.len() == 1);
                        assert(body[0] == '.');
                        assert(!all_digits(body));
                    }
                } else {
                    whole_end = d;
                    frac_start = d + 1;
                }
            },
        }
    }
    if invalid {
        return None;
    }
    let ghost nv = number_spec(number@);
    proof {
        match dot {
            None => {
                assert(all_digits(body) && body.len() > 0);
                assert(number@.subrange(frac_start as int, number.len() as int) =~= Seq::<char>::empty());
                assert(nv == Some(NumberView { negative, whole: body, fraction: Seq::<char>::empty() }));
                assert(whole_end == number.len());
                assert(body =~= number@.subrange(start as int, whole_end as int));
            },
            Some(d) => {
                let bd: int = d - start;
                assert(body[bd] == '.');
                assert(!all_digits(body));
                assert(body.subrange(0, bd) =~= number@.subrange(start as int, d as int));
                assert(body.subrange(bd + 1, body.len() as int) =~= number@.subrange(d + 1, number.len() as int));
                assert(point_at(body, bd));
                let c = point_of(body);
                if c < bd {
                    assert(body.subrange(c + 1, body.len() as int)[bd - c - 1] == '.');
                } else if c > bd {
                    assert(body.subrange(0, c)[bd] == '.');
                }
                assert(c == bd);
                assert(negative == (number@.len() > 0 && (number@[0] == '+' || number@[0] == '-') && number@[0] == '-'));
                let sb = number_body(number@);
                assert(sb == body);
                assert(!(all_digits(sb) && sb.len() > 0));
                assert(exists|dd: int| point_at(sb, dd));
                assert(point_of(sb) == bd);
                assert(number_spec(number@) is Some);
                assert(number_spec(number@)->0.whole == body.subrange(0, bd));
                assert(number_spec(number@)->0.fraction == body.subrange(bd + 1, body.len() as int));
                assert(number_spec(number@)->0.negative == negative);
                assert(number_spec(number@) == Some(NumberView { negative, whole: body.subrange(0, bd), fraction: body.subrange(bd + 1, body.len() as int) }));
                assert(whole_end == d);
                assert(frac_start == d + 1);
            },
        }
        assert(nv == Some(NumberView {
            negative,
            whole: number@.subrange(start as int, whole_end as int),
            fraction: number@.subrange(frac_start as int, number.len() as int),
        }));
        assert(all_digits(number@.subrange(start as int, whole_end as int)));
        assert(all_digits(number@.subrange(frac_start as int, number.len() as int)));
    }
    Some((negative, start, whole_end, frac_start))
}

/// Reads a size such as `512`, `1 MB` or `2GiB` as a byte count.
#[verifier::rlimit(30)]
pub fn parse_size(spec: &String) -> (r: Result<u64, String>)
    ensures
        match r {
            Ok(n) => parse_size_spec(spec@) == Ok::<u64, Seq<char>>(n),
            Err(e) => parse_size_spec(spec@) == Err::<u64, Seq<char>>(e@),
        },
{
    let all = chars_of(spec.as_str());
    let s = trimmed(&all, 0, all.len());
    assert(all@.subrange(0, all.len() as int) =~= spec@);
    let mut split: usize = 0;
    while split < s.len() && !ascii_alpha(s[split])
        invariant
            split <= s.len(),
            forall|j: int| 0 <= j < split ==> !is_alpha(s@[j]),
        decreases s.len() - split,
    {
        split = split + 1;
    }
    proof {
        if split < s.len() {
            assert(first_alpha(s@, split as int));
            let c = choose|i: int| first_alpha(s@, i);
            lemma_first_alpha_unique(s@, c, split as int);
        } else {
            assert(!exists|i: int| first_alpha(s@, i));
        }
        assert(split == split_at_spec(s@));
    }
    let number = trimmed(&s, 0, split);
    let unit_text = trimmed(&s, split, s.len());
    let u = lowercased(&unit_text);
    let (negative, start, whole_end, frac_start) = match read_number(&number) {
        Some(x) => x,
        None => {
            let mut out = chars_of("invalid size `");
            push_all(&mut out, &s);
            push_str(&mut out, "`");
            assert(out@ =~= "invalid size `"@ + s@ + "`"@);
            return Err(string_of(&out));
        },
    };
    let m = match unit(&u) {
        Some(m) => m,
        None => {
            let mut out = chars_of("unknown size suffix `");
            push_all(&mut out, &u);
            push_str(&mut out, "` in `");
            push_all(&mut out, &s);
            push_str(&mut out, "`");
            assert(out@ =~= "unknown size suffix `"@ + u@ + "` in `"@ + s@ + "`"@);
            return Err(string_of(&out));
        },
    };
    if negative {
        return Ok(0);
    }
    Ok(byte_count(&number, start, whole_end, frac_start, m))
}

/// The byte count of the unsigned number whose whole digits are
/// `number[start..whole_end]` and whose fraction digits are
/// `number[frac_start..]`, times `m`.
#[verifier::rlimit(30)]
fn byte_count(number: &Vec<char>, start: usize, whole_end: usize, frac_start: usize, m: u64) -> (r: u64)
    requires
        start <= whole_end <= number.len(),
        frac_start <= number.len(),
        all_digits(number@.subrange(start as int, whole_end as int)),
        all_digits(number@.subrange(frac_start as int, number.len() as int)),
        1 <= m <= 1099511627776,
    ensures
        r == bytes_spec(
            NumberView {
                negative: false,
                whole: number@.subrange(start as int, whole_end as int),
                fraction: number@.subrange(frac_start as int, number.len() as int),
            },
            m as nat,
        ),
{
    proof {
        reveal_with_fuel(pow10, 19);
    }
    assert(pow10(18) == 1000000000000000000);
    let (whole, big) = read_digits(number, start, whole_end);
    let (fraction, k) = read_fraction(number, frac_start, number.len());
    assert(number@.subrange(frac_start as int, number.len() as int).len() == number.len() - frac_start);
    if big {
        proof {
            let w: nat = digits_value(number@.subrange(start as int, whole_end as int));
            assert(w * m >= w) by (nonlinear_arith) requires m >= 1;
        }
        return u64::MAX;
    }
    let mut p: u64 = 1;
    let mut j: usize = 0;
    while j < k
        invariant
            j <= k <= 18,
            p == pow10(j as nat),
            pow10(18) == 1000000000000000000,
        decreases k - j,
    {
        assert(pow10((j + 1) as nat) <= pow10(18)) by {
            lemma_pow10_monotone((j + 1) as nat, 18);
        }
        p = p * 10;
        j = j + 1;
    }
    assert(whole * (m as u128) < 100000000000000000000 * 1099511627776) by (nonlinear_arith)
        requires whole < 100000000000000000000u128, m <= 1099511627776u64;
    assert(fraction * (m as u128) < 1000000000000000000 * 1099511627776) by (nonlinear_arith)
        requires (fraction as int) < 1000000000000000000, m <= 1099511627776u64, (fraction as int) < pow10(k as nat), pow10(k as nat) <= 1000000000000000000;
    let total: u128 = whole * (m as u128) + (fraction as u128) * (m as u128) / (p as u128);
    if total > u64::MAX as u128 {
        u64::MAX
    } else {
        total as u64
    }
}

pub proof fn lemma_pow10_monotone(a: nat, b: nat)
    requires
        a <= b,
    ensures
        pow10(a) <= pow10(b),
    decreases b,
{
    if a < b {
        lemma_pow10_monotone(a, (b - 1) as nat);
    }
}

proof fn lemma_trim_keeps(x: Seq<char>)
    requires
        x.len() > 0,
        !is_ws(x[0]),
        !is_ws(x.last()),
    ensures
        trim(x) == x,
{
}

proof fn lemma_first_alpha_unique(s: Seq<char>, i: int, j: int)
    requires
        first_alpha(s, i),
        first_alpha(s, j),
    ensures
        i == j,
{
    if i < j {
        assert(!is_alpha(s[i]));
    } else if j < i {
        assert(!is_alpha(s[j]));
    }
}

/// How a text made of a number and a unit in letters is split: the number
/// is everything before the first letter and the unit, lowercased, the rest.
proof fn lemma_number_then_unit(num: Seq<char>, u: Seq<char>)
    requires
        num.len() > 0,
        !is_ws(num[0]),
        !is_ws(num.last()),
        forall|i: int| 0 <= i < num.len() ==> !is_alpha(#[trigger] num[i]),
        u.len() > 0,
        forall|i: int| 0 <= i < u.len() ==> is_alpha(#[trigger] u[i]),
    ensures
        parse_size_spec(num + u) == match number_spec(num) {
            None => Err("invalid size `"@ + (num + u) + "`"@),
            Some(n) => match unit_spec(lowercase(u)) {
                None => Err("unknown size suffix `"@ + lowercase(u) + "` in `"@ + (num + u) + "`"@),
                Some(m) => Ok::<u64, Seq<char>>(bytes_spec(n, m) as u64),
            },
        },
{
    let s = num + u;
    assert(is_alpha(u[u.len() - 1]));
    assert(s[0] == num[0]);
    assert(s.last() == u[u.len() - 1]);
    lemma_trim_keeps(s);
    let k = num.len() as int;
    assert forall|j: int| 0 <= j < k implies !is_alpha(s[j]) by {
        assert(s[j] == num[j]);
    }
    assert(s[k] == u[0]);
    assert(is_alpha(u[0]));
    assert(first_alpha(s, k));
    let c = choose|i: int| first_alpha(s, i);
    lemma_first_alpha_unique(s, c, k);
    assert(split_at_spec(s) == k);
    assert(s.subrange(0, k) =~= num);
    assert(s.subrange(k, s.len() as int) =~= u);
    lemma_trim_keeps(num);
    lemma_trim_keeps(u);
}

/// A size written as digits and then a unit in letters is the digits' value
/// times the unit's multiplier, whatever the unit's case, and the largest
/// 64-bit count where that product does not fit.
pub proof fn law_digits_and_unit(d: Seq<char>, u: Seq<char>, m: nat)
    requires
        d.len() > 0,
        all_digits(d),
        u.len() > 0,
        forall|i: int| 0 <= i < u.len() ==> is_alpha(#[trigger] u[i]),
        unit_spec(lowercase(u)) == Some(m),
    ensures
        parse_size_spec(d + u) == Ok::<u64, Seq<char>>(min_nat(digits_value(d) * m, u64::MAX as nat) as u64),
{
    assert(is_digit(d[0]));
    assert(is_digit(d[d.len() - 1]));
    assert forall|i: int| 0 <= i < d.len() implies !is_alpha(#[trigger] d[i]) by {
        assert(is_digit(d[i]));
    }
    lemma_number_then_unit(d, u);
    assert(!has_sign(d));
    assert(number_body(d) == d);
    let n = NumberView { negative: false, whole: d, fraction: seq![] };
    assert(number_spec(d) == Some(n));
    assert(n.fraction.subrange(0, 0) =~= Seq::<char>::empty());
    assert(digits_value(Seq::<char>::empty()) == 0);
    assert(pow10(0) == 1);
    assert(0 * m == 0) by (nonlinear_arith);
    assert(bytes_spec(n, m) == min_nat(digits_value(d) * m, u64::MAX as nat));
}

/// A size written as digits alone is that many bytes.
pub proof fn law_plain_number_is_bytes(d: Seq<char>)
    requires
        d.len() > 0,
        all_digits(d),
    ensures
        parse_size_spec(d) == Ok::<u64, Seq<char>>(min_nat(digits_value(d), u64::MAX as nat) as u64),
{
    assert(is_digit(d[0]));
    assert(is_digit(d[d.len() - 1]));
    lemma_trim_keeps(d);
    assert forall|i: int| !first_alpha(d, i) by {
        if 0 <= i < d.len() {
            assert(is_digit(d[i]));
        }
    }
    assert(split_at_spec(d) == d.len());
    assert(d.subrange(0, d.len() as int) =~= d);
    assert(d.subrange(d.len() as int, d.len() as int) =~= Seq::<char>::empty());
    assert(trim(Seq::<char>::empty()) =~= Seq::<char>::empty());
    assert(lowercase(Seq::<char>::empty()) =~= Seq::<char>::empty());
    assert(!has_sign(d));
    assert(number_body(d) == d);
    let n = NumberView { negative: false, whole: d, fraction: seq![] };
    assert(number_spec(d) == Some(n));
    assert(n.fraction.subrange(0, 0) =~= Seq::<char>::empty());
    assert(digits_value(Seq::<char>::empty()) == 0);
    assert(pow10(0) == 1);
    assert(bytes_spec(n, 1) == min_nat(digits_value(d), u64::MAX as nat));
}

/// A negative size, in any unit, is zero bytes.
pub proof fn law_negative_size_is_zero(d: Seq<char>, u: Seq<char>, m: nat)
    requires
        d.len() > 0,
        all_digits(d),
        u.len() > 0,
        forall|i: int| 0 <= i < u.len() ==> is_alpha(#[trigger] u[i]),
        unit_spec(lowercase(u)) == Some(m),
    ensures
        parse_size_spec(seq!['-'] + d + u) == Ok::<u64, Seq<char>>(0),
{
    let num = seq!['-'] + d;
    assert(is_digit(d[d.len() - 1]));
    assert(num.last() == d[d.len() - 1]);
    assert forall|i: int| 0 <= i < num.len() implies !is_alpha(#[trigger] num[i]) by {
        if i > 0 {
            assert(num[i] == d[i - 1]);
            assert(is_digit(d[i - 1]));
        }
    }
    lemma_number_then_unit(num, u);
    assert(seq!['-'] + d + u == num + u);
    assert(has_sign(num));
    assert(number_body(num) =~= d);
    assert(number_spec(num) == Some(NumberView { negative: true, whole: d, fraction: seq![] }));
}

/// A size with a fraction is the whole digits and the fraction digits
/// (up to eighteen of them) times the unit, rounded down: `1.5KiB` is 1536
/// bytes.
pub proof fn law_fraction_rounds_down(w: Seq<char>, f: Seq<char>, u: Seq<char>, m: nat)
    requires
        all_digits(w),
        all_digits(f),
        w.len() + f.len() > 0,
        f.len() <= 18,
        u.len() > 0,
        forall|i: int| 0 <= i < u.len() ==> is_alpha(#[trigger] u[i]),
        unit_spec(lowercase(u)) == Some(m),
    ensures
        parse_size_spec(w + seq!['.'] + f + u) == Ok::<u64, Seq<char>>(
            min_nat(digits_value(w) * m + (digits_value(f) * m) / pow10(f.len()), u64::MAX as nat) as u64,
        ),
{
    let num = w + seq!['.'] + f;
    let k = w.len() as int;
    assert(num[k] == '.');
    assert forall|i: int| 0 <= i < num.len() && i != k implies #[trigger] is_digit(num[i]) by {
        if i < k {
            assert(num[i] == w[i]);
        } else {
            assert(num[i] == f[i - k - 1]);
        }
    }
    assert forall|i: int| 0 <= i < num.len() implies !is_alpha(#[trigger] num[i]) by {
        if i != k {
            assert(is_digit(num[i]));
        }
    }
    if k != 0 {
        assert(is_digit(num[0]));
    }
    if num.len() - 1 != k {
        assert(is_digit(num[num.len() - 1]));
    }
    lemma_number_then_unit(num, u);
    assert(w + seq!['.'] + f + u == num + u);
    assert(!has_sign(num)) by {
        if k != 0 {
            assert(is_digit(num[0]));
        }
    }
    assert(number_body(num) == num);
    assert(!all_digits(num)) by {
        assert(!is_digit(num[k]));
    }
    assert(num.subrange(0, k) =~= w);
    assert(num.subrange(k + 1, num.len() as int) =~= f);
    assert(point_at(num, k));
    let d = point_of(num);
    assert(point_at(num, d));
    if d != k {
        if d < k {
            assert(num.subrange(d + 1, num.len() as int)[k - d - 1] == num[k]);
        } else {
            assert(num.subrange(0, d)[k] == num[k]);
        }
    }
    let n = NumberView { negative: false, whole: w, fraction: f };
    assert(number_spec(num) == Some(n));
    assert(f.subrange(0, f.len() as int) =~= f);
}

/// The binary units: a kibibyte is 1024 bytes and each larger unit is 1024
/// of the one below it, so `256MiB` is 268435456 bytes. Counts too large for
/// 64 bits are the largest 64-bit count.
pub proof fn law_binary_units(d: Seq<char>)
    requires
        d.len() > 0,
        all_digits(d),
    ensures
        parse_size_spec(d + "KiB"@) == Ok::<u64, Seq<char>>(min_nat(digits_value(d) * 1024, u64::MAX as nat) as u64),
        parse_size_spec(d + "MiB"@) == Ok::<u64, Seq<char>>(min_nat(digits_value(d) * (1024 * 1024), u64::MAX as nat) as u64),
        parse_size_spec(d + "GiB"@) == Ok::<u64, Seq<char>>(
            min_nat(digits_value(d) * (1024 * 1024 * 1024), u64::MAX as nat) as u64,
        ),
        parse_size_spec(d + "TiB"@) == Ok::<u64, Seq<char>>(
            min_nat(digits_value(d) * (1024 * 1024 * 1024 * 1024), u64::MAX as nat) as u64,
        ),
{
    reveal_strlit("KiB");
    reveal_strlit("MiB");
    reveal_strlit("GiB");
    reveal_strlit("TiB");
    reveal_strlit("kib");
    reveal_strlit("mib");
    reveal_strlit("gib");
    reveal_strlit("tib");
    reveal_strlit("b");
    reveal_strlit("k");
    reveal_strlit("kb");
    reveal_strlit("m");
    reveal_strlit("mb");
    reveal_strlit("g");
    reveal_strlit("gb");
    reveal_strlit("t");
    reveal_strlit("tb");
    assert(lowercase("KiB"@) =~= "kib"@);
    assert(lowercase("MiB"@) =~= "mib"@);
    assert(lowercase("GiB"@) =~= "gib"@);
    assert(lowercase("TiB"@) =~= "tib"@);
    assert("mib"@[0] != "kib"@[0]);
    assert("gib"@[0] != "kib"@[0] && "gib"@[0] != "mib"@[0]);
    assert("tib"@[0] != "kib"@[0] && "tib"@[0] != "mib"@[0] && "tib"@[0] != "gib"@[0]);
    law_digits_and_unit(d, "KiB"@, 1024);
    law_digits_and_unit(d, "MiB"@, 1024 * 1024);
    law_digits_and_unit(d, "GiB"@, 1024 * 1024 * 1024);
    law_digits_and_unit(d, "TiB"@, 1024 * 1024 * 1024 * 1024);
}

/// The decimal units: a byte is one byte, a kilobyte 1000 bytes, and each
/// larger unit 1000 of the one below it. Counts too large for 64 bits are
/// the largest 64-bit count.
pub proof fn law_decimal_units(d: Seq<char>)
    requires
        d.len() > 0,
        all_digits(d),
    ensures
        parse_size_spec(d + "B"@) == Ok::<u64, Seq<char>>(min_nat(digits_value(d), u64::MAX as nat) as u64),
        parse_size_spec(d + "KB"@) == Ok::<u64, Seq<char>>(min_nat(digits_value(d) * 1000, u64::MAX as nat) as u64),
        parse_size_spec(d + "MB"@) == Ok::<u64, Seq<char>>(min_nat(digits_value(d) * (1000 * 1000), u64::MAX as nat) as u64),
        parse_size_spec(d + "GB"@) == Ok::<u64, Seq<char>>(
            min_nat(digits_value(d) * (1000 * 1000 * 1000), u64::MAX as nat) as u64,
        ),
        parse_size_spec(d + "TB"@) == Ok::<u64, Seq<char>>(
            min_nat(digits_value(d) * (1000 * 1000 * 1000 * 1000), u64::MAX as nat) as u64,
        ),
{
    reveal_strlit("B");
    reveal_strlit("KB");
    reveal_strlit("MB");
    reveal_strlit("GB");
    reveal_strlit("TB");
    reveal_strlit("b");
    reveal_strlit("k");
    reveal_strlit("kb");
    reveal_strlit("m");
    reveal_strlit("mb");
    reveal_strlit("g");
    reveal_strlit("gb");
    reveal_strlit("t");
    reveal_strlit("tb");
    reveal_strlit("kib");
    reveal_strlit("mib");
    reveal_strlit("gib");
    assert(lowercase("B"@) =~= "b"@);
    assert(lowercase("KB"@) =~= "kb"@);
    assert(lowercase("MB"@) =~= "mb"@);
    assert(lowercase("GB"@) =~= "gb"@);
    assert(lowercase("TB"@) =~= "tb"@);
    assert("mb"@[0] != "kb"@[0]);
    assert("gb"@[0] != "kb"@[0] && "gb"@[0] != "mb"@[0]);
    assert("tb"@[0] != "kb"@[0] && "tb"@[0] != "mb"@[0] && "tb"@[0] != "gb"@[0]);
    law_digits_and_unit(d, "B"@, 1);
    law_digits_and_unit(d, "KB"@, 1000);
    law_digits_and_unit(d, "MB"@, 1000 * 1000);
    law_digits_and_unit(d, "GB"@, 1000 * 1000 * 1000);
    law_digits_and_unit(d, "TB"@, 1000 * 1000 * 1000 * 1000);
}

proof fn lemma_trim_start_append_ws(x: Seq<char>, c: char)
    requires
        is_ws(c),
    ensures
        trim_start(x + seq![c]) == (if trim_start(x).len() > 0 { trim_start(x) + seq![c] } else { Seq::<char>::empty() }),
    decreases x.len(),
{
    let y = x + seq![c];
    if x.len() == 0 {
        assert(y =~= seq![c]);
        assert(y.drop_first() =~= Seq::<char>::empty());
        assert(trim_start(Seq::<char>::empty()) == Seq::<char>::empty());
        assert(trim_start(y) == trim_start(y.drop_first()));
    } else if is_ws(x[0]) {
        assert(y[0] == x[0]);
        assert(y.drop_first() =~= x.drop_first() + seq![c]);
        lemma_trim_start_append_ws(x.drop_first(), c);
    } else {
        assert(y[0] == x[0]);
    }
}

/// Whitespace around a size changes nothing: a size text with a blank
/// before or after it means what the text alone means.
pub proof fn law_surrounding_whitespace_is_ignored(x: Seq<char>, c: char)
    requires
        is_ws(c),
    ensures
        parse_size_spec(seq![c] + x) == parse_size_spec(x),
        parse_size_spec(x + seq![c]) == parse_size_spec(x),
{
    let a = seq![c] + x;
    assert(a.drop_first() =~= x);
    assert(trim_start(a) == trim_start(x));
    assert(trim(a) == trim(x));
    lemma_trim_start_append_ws(x, c);
    let t = trim_start(x);
    if t.len() > 0 {
        let b = t + seq![c];
        assert(b.drop_last() =~= t);
        assert(trim_end(b) == trim_end(t));
    } else {
        assert(trim_end(t) =~= Seq::<char>::empty());
    }
    assert(trim(x + seq![c]) == trim(x));
}

} // verus!
