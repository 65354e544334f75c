//! Reading the line-and-field tables the kernel publishes under `/proc`.

use vstd::prelude::*;

use crate::size::{all_digits, digit_value, digits_value, is_digit, is_ws};

verus! {

/// The pieces of `t` between separators, and the piece still open.
pub open spec fn split_state(t: Seq<char>, sep: char) -> (Seq<Seq<char>>, Seq<char>)
    decreases t.len(),
{
    if t.len() == 0 {
        (seq![], seq![])
    } else {
        let (done, cur) = split_state(t.drop_last(), sep);
        if t.last() == sep { (done.push(cur), seq![]) } else { (done, cur.push(t.last())) }
    }
}

/// A line without a trailing carriage return.
pub open spec fn strip_cr(l: Seq<char>) -> Seq<char> {
    if l.len() > 0 && l.last() == '\r' { l.drop_last() } else { l }
}

/// The pieces of `t` between separators, as `str::split` yields them: one
/// more than there are separators, empty ones included.
pub open spec fn split_pieces(t: Seq<char>, sep: char) -> Seq<Seq<char>> {
    let (done, cur) = split_state(t, sep);
    done.push(cur)
}

/// The lines of a text, as `str::lines` reads them: split at each newline,
/// with no empty line after a final newline, and a carriage return before a
/// newline dropped.
pub open spec fn lines_spec(t: Seq<char>) -> Seq<Seq<char>> {
    let (done, cur) = split_state(t, '\n');
    let pieces = if cur.len() > 0 { done.push(cur) } else { done };
    pieces.map_values(|l: Seq<char>| strip_cr(l))
}

/// The words of a text and the word still open, splitting at whitespace.
pub open spec fn word_state(t: Seq<char>) -> (Seq<Seq<char>>, Seq<char>)
    decreases t.len(),
{
    if t.len() == 0 {
        (seq![], seq![])
    } else {
        let (done, cur) = word_state(t.drop_last());
        if is_ws(t.last()) {
            (if cur.len() > 0 { done.push(cur) } else { done }, seq![])
        } else {
            (done, cur.push(t.last()))
        }
    }
}

/// The words of a text, as `str::split_whitespace` reads them.
pub open spec fn words_spec(t: Seq<char>) -> Seq<Seq<char>> {
    let (done, cur) = word_state(t);
    if cur.len() > 0 { done.push(cur) } else { done }
}

/// The pieces of `t` between each `sep`.
pub fn split_chars(t: &Vec<char>, sep: char) -> (r: Vec<Vec<char>>)
    ensures
        r@.map_values(|l: Vec<char>| l@) == split_pieces(t@, sep),
{
    let mut done: Vec<Vec<char>> = Vec::new();
    let mut cur: Vec<char> = Vec::new();
    let mut i: usize = 0;
    while i < t.len()
        invariant
            i <= t@.len(),
            (done@.map_values(|l: Vec<char>| l@), cur@) == split_state(t@.subrange(0, i as int), sep),
        decreases t@.len() - i,
    {
        let c = t[i];
        let ghost pre = t@.subrange(0, i + 1);
        assert(pre.drop_last() =~= t@.subrange(0, i as int));
        let ghost before = done@.map_values(|l: Vec<char>| l@);
        if c == sep {
            let piece = cur;
            done.push(piece);
            cur = Vec::new();
            assert(done@.map_values(|l: Vec<char>| l@) =~= before.push(piece@));
            assert(cur@ =~= Seq::<char>::empty());
        } else {
            cur.push(c);
        }
        i = i + 1;
    }
    assert(t@.subrange(0, t@.len() as int) =~= t@);
    let ghost before = done@.map_values(|l: Vec<char>| l@);
    let piece = cur;
    done.push(piece);
    assert(done@.map_values(|l: Vec<char>| l@) =~= before.push(piece@));
    done
}

/// The lines of `text`.
pub fn lines(text: &str) -> (r: Vec<Vec<char>>)
    ensures
        r@.map_values(|l: Vec<char>| l@) == lines_spec(text@),
{
    let cs = crate::text::chars_of(text);
    let mut done: Vec<Vec<char>> = Vec::new();
    let mut cur: Vec<char> = Vec::new();
    let mut i: usize = 0;
    while i < cs.len()
        invariant
            i <= cs.len(),
            cs@ == text@,
            (done@.map_values(|l: Vec<char>| l@), cur@) == split_state(cs@.subrange(0, i as int), '\n'),
        decreases cs.len() - i,
    {
        let c = cs[i];
        let ghost pre = cs@.subrange(0, i + 1);
        assert(pre.drop_last() =~= cs@.subrange(0, i as int));
        let ghost before = done@.map_values(|l: Vec<char>| l@);
        if c == '\n' {
            let piece = cur;
            done.push(piece);
            cur = Vec::new();
            assert(done@.map_values(|l: Vec<char>| l@) =~= before.push(piece@));
            assert(cur@ =~= Seq::<char>::empty());
        } else {
            cur.push(c);
        }
        i = i + 1;
    }
    assert(cs@.subrange(0, cs.len() as int) =~= cs@);
    if cur.len() > 0 {
        let ghost before = done@.map_values(|l: Vec<char>| l@);
        let piece = cur;
        done.push(piece);
        assert(done@.map_values(|l: Vec<char>| l@) =~= before.push(piece@));
    }
    let ghost pieces = done@.map_values(|l: Vec<char>| l@);
    let mut r: Vec<Vec<char>> = Vec::new();
    let mut k: usize = 0;
    while k < done.len()
        invariant
            k <= done@.len(),
            pieces == done@.map_values(|l: Vec<char>| l@),
            r@.len() == k,
            forall|j: int| 0 <= j < k ==> (#[trigger] r@[j])@ == strip_cr(pieces[j]),
        decreases done@.len() - k,
    {
        let l = &done[k];
        let mut out: Vec<char> = Vec::new();
        let end: usize = if l.len() > 0 && l[l.len() - 1] == '\r' { l.len() - 1 } else { l.len() };
        let mut j: usize = 0;
        while j < end
            invariant
                j <= end <= l@.len(),
                out@ == l@.subrange(0, j as int),
            decreases end - j,
        {
            out.push(l[j]);
            j = j + 1;
            assert(out@ =~= l@.subrange(0, j as int));
        }
        assert(out@ =~= strip_cr(l@));
        r.push(out);
        k = k + 1;
    }
    assert(r@.map_values(|l: Vec<char>| l@) =~= lines_spec(text@));
    r
}

fn ws_char(c: char) -> (r: bool)
    ensures
        r == is_ws(c),
{
    let u: u32 = c as u32;
    (9 <= u && u <= 13) || u == 32 || u == 0x85 || u == 0xA0 || u == 0x1680 || (0x2000 <= u && u <= 0x200A)
        || u == 0x2028 || u == 0x2029 || u == 0x202F || u == 0x205F || u == 0x3000
}

/// The words of a line.
pub fn words(line: &Vec<char>) -> (r: Vec<Vec<char>>)
    ensures
        r@.map_values(|w: Vec<char>| w@) == words_spec(line@),
{
    let mut done: Vec<Vec<char>> = Vec::new();
    let mut cur: Vec<char> = Vec::new();
    let mut i: usize = 0;
    while i < line.len()
        invariant
            i <= line@.len(),
            (done@.map_values(|w: Vec<char>| w@), cur@) == word_state(line@.subrange(0, i as int)),
        decreases line@.len() - i,
    {
        let c = line[i];
        let ghost pre = line@.subrange(0, i + 1);
        assert(pre.drop_last() =~= line@.subrange(0, i as int));
        let ghost before = done@.map_values(|w: Vec<char>| w@);
        if ws_char(c) {
            if cur.len() > 0 {
                let piece = cur;
                done.push(piece);
                assert(done@.map_values(|w: Vec<char>| w@) =~= before.push(piece@));
            }
            cur = Vec::new();
            assert(cur@ =~= Seq::<char>::empty());
        } else {
            cur.push(c);
        }
        i = i + 1;
    }
    assert(line@.subrange(0, line@.len() as int) =~= line@);
    if cur.len() > 0 {
        let ghost before = done@.map_values(|w: Vec<char>| w@);
        let piece = cur;
        done.push(piece);
        assert(done@.map_values(|w: Vec<char>| w@) =~= before.push(piece@));
    }
    done
}

/// A decimal `u32` as `str::parse` reads one: an optional `+`, then at least
/// one digit, and nothing else, within range.
pub open spec fn u32_spec(w: Seq<char>) -> Option<u32> {
    let body = u32_body(w);
    if body.len() > 0 && all_digits(body) && digits_value(body) <= u32::MAX {
        Some(digits_value(body) as u32)
    } else {
        None
    }
}

pub open spec fn u32_body(w: Seq<char>) -> Seq<char> {
    if w.len() > 0 && w[0] == '+' { w.drop_first() } else { w }
}

/// Reads a decimal `u32`.
pub fn parse_u32(w: &Vec<char>) -> (r: Option<u32>)
    ensures
        r == u32_spec(w@),
{
    let start: usize = if w.len() > 0 && w[0] == '+' { 1 } else { 0 };
    let ghost body = u32_body(w@);
    assert(body =~= w@.subrange(start as int, w@.len() as int));
    if start >= w.len() {
        return None;
    }
    let mut acc: u64 = 0;
    let mut i: usize = start;
    while i < w.len()
        invariant
            start <= i <= w@.len(),
            body == w@.subrange(start as int, w@.len() as int),
            body == u32_body(w@),
            forall|j: int| start <= j < i ==> is_digit(w@[j]),
            acc == digits_value(w@.subrange(start as int, i as int)),
            acc <= u32::MAX,
        decreases w@.len() - i,
    {
        let c = w[i];
        if !('0' <= c && c <= '9') {
            assert(!is_digit(body[i - start]));
            assert(!all_digits(body));
            return None;
        }
        let d: u64 = ((c as u32) - 48) as u64;
        let ghost pre = w@.subrange(start as int, i + 1);
        assert(pre.drop_last() =~= w@.subrange(start as int, i as int));
        assert(pre.last() == c);
        let next: u64 = acc * 10 + d;
        i = i + 1;
        if next > 0xFFFF_FFFF {
            proof {
                assert(w@.subrange(start as int, i as int) =~= body.subrange(0, i - start));
                if all_digits(body) {
                    lemma_digits_prefix_bound(body, i - start);
                }
            }
            return None;
        }
        acc = next;
    }
    assert forall|j: int| 0 <= j < body.len() implies is_digit(#[trigger] body[j]) by {
        assert(body[j] == w@[j + start]);
    }
    Some(acc as u32)
}

/// A run of digits is worth at least any prefix of it.
proof fn lemma_digits_prefix_bound(s: Seq<char>, n: int)
    requires
        0 <= n <= s.len(),
        all_digits(s),
    ensures
        digits_value(s) >= digits_value(s.subrange(0, n)),
    decreases s.len() - n,
{
    if n < s.len() {
        lemma_digits_prefix_bound(s, n + 1);
        let t = s.subrange(0, n + 1);
        assert(t.drop_last() =~= s.subrange(0, n));
        assert(digits_value(t) == digits_value(s.subrange(0, n)) * 10 + digit_value(t.last()));
    } else {
        assert(s.subrange(0, n) =~= s);
    }
}

} // verus!
