//! Splitting text into lines and fields, and reading decimal integers, as the
//! standard library's `str::lines`, `str::split` and integer `parse` do.
use vstd::prelude::*;

verus! {

/// The views of a list of character vectors.
pub open spec fn char_vecs_view(v: Seq<Vec<char>>) -> Seq<Seq<char>> {
    v.map_values(|x: Vec<char>| x@)
}

/// The pieces of `s` between the separators `sep` (one more piece than separators).
pub open spec fn split_on(s: Seq<char>, sep: char) -> Seq<Seq<char>>
    decreases s.len(),
{
    if s.len() == 0 {
        seq![Seq::<char>::empty()]
    } else {
        let t = split_on(s.drop_last(), sep);
        if s.last() == sep {
            t.push(Seq::empty())
        } else {
            t.update(t.len() - 1, t.last().push(s.last()))
        }
    }
}

proof fn lemma_split_on_nonempty(s: Seq<char>, sep: char)
    ensures
        split_on(s, sep).len() >= 1,
    decreases s.len(),
{
    if s.len() > 0 {
        lemma_split_on_nonempty(s.drop_last(), sep);
    }
}

/// Splits `s` at every `sep`.
pub fn split_chars(s: &[char], sep: char) -> (r: Vec<Vec<char>>)
    ensures
        char_vecs_view(r@) == split_on(s@, sep),
{
    let mut done: Vec<Vec<char>> = Vec::new();
    let mut cur: Vec<char> = Vec::new();
    let mut i: usize = 0;
    while i < s.len()
        invariant
            i <= s@.len(),
            char_vecs_view(done@).push(cur@) == split_on(s@.take(i as int), sep),
        decreases s@.len() - i,
    {
        let ghost before = s@.take(i as int);
        assert(s@.take(i as int + 1).drop_last() =~= before);
        proof {
            lemma_split_on_nonempty(before, sep);
        }
        let c = s[i];
        if c == sep {
            let mut fresh: Vec<char> = Vec::new();
            std::mem::swap(&mut fresh, &mut cur);
            done.push(fresh);
            assert(char_vecs_view(done@).push(cur@) =~= split_on(before, sep).push(Seq::empty()));
        } else {
            cur.push(c);
            assert(char_vecs_view(done@).push(cur@) =~= split_on(before, sep).update(
                split_on(before, sep).len() - 1,
                split_on(before, sep).last().push(c),
            ));
        }
        i = i + 1;
    }
    assert(s@.take(s@.len() as int) =~= s@);
    done.push(cur);
    assert(char_vecs_view(done@) =~= split_on(s@, sep));
    done
}

/// A line without the `\r` of a `\r\n` ending.
pub open spec fn strip_cr(p: Seq<char>) -> Seq<char> {
    if p.len() > 0 && p.last() == '\r' { p.drop_last() } else { p }
}

/// Each piece without the `\r` of a `\r\n` ending.
pub open spec fn stripped(v: Seq<Seq<char>>) -> Seq<Seq<char>> {
    Seq::new(v.len(), |i: int| strip_cr(v[i]))
}

/// The lines of `s`: the pieces between `\n`s, each without the `\r` of a `\r\n`
/// ending; a last piece that is empty is no line, and one with no `\n` after it keeps
/// its characters.
pub open spec fn lines_of(s: Seq<char>) -> Seq<Seq<char>> {
    let parts = split_on(s, '\n');
    let ended = stripped(parts.take(parts.len() - 1));
    if parts.last().len() == 0 { ended } else { ended.push(parts.last()) }
}

/// A piece without the `\r` of a `\r\n` ending.
fn strip_cr_chars(p: &[char]) -> (r: Vec<char>)
    ensures
        r@ == strip_cr(p@),
{
    let len = p.len();
    let keep = if len > 0 && p[len - 1] == '\r' { len - 1 } else { len };
    let mut line: Vec<char> = Vec::new();
    let mut j: usize = 0;
    while j < keep
        invariant
            keep <= len,
            len == p@.len(),
            keep == if len > 0 && p@[len - 1] == '\r' { len - 1 } else { len as int },
            j <= keep,
            line@ == p@.take(j as int),
        decreases keep - j,
    {
        line.push(p[j]);
        j = j + 1;
        assert(line@ =~= p@.take(j as int));
    }
    assert(line@ =~= strip_cr(p@));
    line
}

/// The lines of `s`, as `str::lines` gives them.
pub fn split_lines(s: &[char]) -> (r: Vec<Vec<char>>)
    ensures
        char_vecs_view(r@) == lines_of(s@),
{
    let parts = split_chars(s, '\n');
    proof {
        lemma_split_on_nonempty(s@, '\n');
    }
    let ghost pv = char_vecs_view(parts@);
    let n = parts.len();
    let mut r: Vec<Vec<char>> = Vec::new();
    let mut i: usize = 0;
    while i + 1 < n
        invariant
            n == parts@.len(),
            n >= 1,
            pv == char_vecs_view(parts@),
            i <= n - 1,
            char_vecs_view(r@) == stripped(pv.take(i as int)),
        decreases n - i,
    {
        let p = &parts[i];
        let line = strip_cr_chars(p.as_slice());
        assert(line@ =~= strip_cr(p@));
        assert(pv[i as int] == p@);
        let ghost before = char_vecs_view(r@);
        r.push(line);
        proof {
            let after = stripped(pv.take(i as int + 1));
            assert(char_vecs_view(r@) =~= before.push(strip_cr(p@)));
            assert forall|j: int| 0 <= j < i implies #[trigger] after[j] == before[j] by {
                assert(before[j] == stripped(pv.take(i as int))[j]);
            }
            assert(char_vecs_view(r@) =~= after);
        }
        i = i + 1;
    }
    let last = &parts[n - 1];
    if last.len() > 0 {
        r.push(last.clone());
        assert(char_vecs_view(r@) =~= lines_of(s@));
    } else {
        assert(char_vecs_view(r@) =~= lines_of(s@));
    }
    r
}

/// `c` is an ASCII decimal digit.
pub open spec fn is_digit(c: char) -> bool {
    '0' <= c && c <= '9'
}

/// The value of a string of decimal digits.
pub open spec fn digits_value(s: Seq<char>) -> nat
    decreases s.len(),
{
    if s.len() == 0 {
        0
    } else {
        digits_value(s.drop_last()) * 10 + ((s.last() as u32) - ('0' as u32)) as nat
    }
}

/// Every character of `b` is a decimal digit.
pub open spec fn all_digits(b: Seq<char>) -> bool {
    forall|i: int| 0 <= i < b.len() ==> is_digit(#[trigger] b[i])
}

/// The integer written in `s`: an optional `+` or `-` sign followed by at least one
/// decimal digit, and nothing else.
pub open spec fn parsed_int(s: Seq<char>) -> Option<int> {
    if s.len() == 0 {
        None
    } else {
        let neg = s[0] == '-';
        let body = if s[0] == '-' || s[0] == '+' { s.drop_first() } else { s };
        if body.len() == 0 || !all_digits(body) {
            None
        } else if neg {
            Some(-(digits_value(body) as int))
        } else {
            Some(digits_value(body) as int)
        }
    }
}

/// The integer written in `s`, where it lies in `lo..=hi`.
pub open spec fn parsed_in(s: Seq<char>, lo: int, hi: int) -> Option<int> {
    match parsed_int(s) {
        Some(v) => if lo <= v <= hi { Some(v) } else { None },
        None => None,
    }
}

/// A bound above every value that a 64-bit integer type can hold.
pub open spec fn digits_cap() -> nat {
    0x1_0000_0000_0000_0000
}

/// Reads the decimal integer written in `s` when it lies in `lo..=hi`.
pub fn parse_int_in(s: &[char], lo: i128, hi: i128) -> (r: Option<i128>)
    requires
        -digits_cap() < lo <= 0 <= hi < digits_cap(),
    ensures
        match r {
            Some(v) => parsed_in(s@, lo as int, hi as int) == Some(v as int),
            None => parsed_in(s@, lo as int, hi as int) is None,
        },
{
    let n = s.len();
    if n == 0 {
        return None;
    }
    let neg = s[0] == '-';
    let start: usize = if s[0] == '-' || s[0] == '+' { 1 } else { 0 };
    let ghost body = if s@[0] == '-' || s@[0] == '+' { s@.drop_first() } else { s@ };
    assert(body =~= s@.subrange(start as int, n as int));
    if start == n {
        return None;
    }
    let cap: u128 = 0x1_0000_0000_0000_0000;
    let mut v: u128 = 0;
    let mut i: usize = start;
    while i < n
        invariant
            start <= i <= n,
            n == s@.len(),
            start < n,
            body == s@.subrange(start as int, n as int),
            body == if s@[0] == '-' || s@[0] == '+' { s@.drop_first() } else { s@ },
            cap == digits_cap(),
            forall|k: int| start <= k < i ==> is_digit(#[trigger] s@[k]),
            v as int == if digits_value(s@.subrange(start as int, i as int)) < digits_cap() {
                digits_value(s@.subrange(start as int, i as int)) as int
            } else {
                digits_cap() as int
            },
        decreases n - i,
    {
        let c = s[i];
        if !('0' <= c && c <= '9') {
            assert(body[i - start] == s@[i as int]);
            assert(!is_digit(body[i - start]));
            return None;
        }
        let d = (c as u32) - ('0' as u32);
        assert(s@.subrange(start as int, i as int + 1).drop_last() =~= s@.subrange(start as int, i as int));
        let next = v * 10 + (d as u128);
        v = if next < cap { next } else { cap };
        i = i + 1;
    }
    assert forall|k: int| 0 <= k < body.len() implies is_digit(#[trigger] body[k]) by {
        assert(body[k] == s@[k + start]);
    }
    if neg {
        if v > (-lo) as u128 {
            None
        } else {
            Some(-(v as i128))
        }
    } else {
        if v > hi as u128 {
            None
        } else {
            Some(v as i128)
        }
    }
}

} // verus!
