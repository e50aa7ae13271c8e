//! Verified string helpers: line splitting, joining, decimal formatting and
//! parsing, and substring search, each against an exact mathematical model.

use vstd::prelude::*;
use vstd::string::StrSliceExecFns;
use vstd::string::StringExecFns;

verus! {

/// Index of the first `'\n'` at or after `start`, or `s.len()` if none.
pub open spec fn next_newline(s: Seq<char>, start: int) -> int
    decreases s.len() - start,
{
    if start < 0 {
        next_newline(s, 0)
    } else if start >= s.len() {
        s.len() as int
    } else if s[start] == '\n' {
        start
    } else {
        next_newline(s, start + 1)
    }
}

pub proof fn lemma_next_newline(s: Seq<char>, start: int)
    requires
        0 <= start <= s.len(),
    ensures
        start <= next_newline(s, start) <= s.len(),
        next_newline(s, start) < s.len() ==> s[next_newline(s, start)] == '\n',
        forall|j: int| start <= j < next_newline(s, start) ==> s[j] != '\n',
    decreases s.len() - start,
{
    if start < s.len() && s[start] != '\n' {
        lemma_next_newline(s, start + 1);
    }
}

/// The lines of `s` from position `start` on, split on `'\n'`.
/// Always at least one line: an empty text has one empty line.
pub open spec fn lines_from(s: Seq<char>, start: int) -> Seq<Seq<char>>
    decreases s.len() - start,
    when 0 <= start <= s.len()
    via lines_from_decreases
{
    let i = next_newline(s, start);
    if i >= s.len() {
        seq![s.subrange(start, s.len() as int)]
    } else {
        seq![s.subrange(start, i)] + lines_from(s, i + 1)
    }
}

#[via_fn]
proof fn lines_from_decreases(s: Seq<char>, start: int) {
    lemma_next_newline(s, start);
}

/// The lines of a whole text.
pub open spec fn lines_of(s: Seq<char>) -> Seq<Seq<char>> {
    lines_from(s, 0)
}

/// There is always at least one line, and never more than `len + 1`.
pub proof fn lemma_lines_from_count(s: Seq<char>, start: int)
    requires
        0 <= start <= s.len(),
    ensures
        1 <= lines_from(s, start).len() <= s.len() - start + 1,
    decreases s.len() - start,
{
    lemma_next_newline(s, start);
    let i = next_newline(s, start);
    if i < s.len() {
        lemma_lines_from_count(s, i + 1);
    }
}

/// The given sequences joined by a single space.
pub open spec fn join_space(lines: Seq<Seq<char>>) -> Seq<char>
    decreases lines.len(),
{
    if lines.len() == 0 {
        Seq::empty()
    } else if lines.len() == 1 {
        lines[0]
    } else {
        lines[0] + seq![' '] + join_space(lines.drop_first())
    }
}

/// The character for one decimal digit.
pub open spec fn dec_digit(d: int) -> char {
    if d == 0 {
        '0'
    } else if d == 1 {
        '1'
    } else if d == 2 {
        '2'
    } else if d == 3 {
        '3'
    } else if d == 4 {
        '4'
    } else if d == 5 {
        '5'
    } else if d == 6 {
        '6'
    } else if d == 7 {
        '7'
    } else if d == 8 {
        '8'
    } else {
        '9'
    }
}

/// The usual decimal rendering of a non-negative integer.
pub open spec fn dec_str(n: int) -> Seq<char>
    decreases n,
{
    if n < 10 {
        seq![dec_digit(n)]
    } else {
        dec_str(n / 10).push(dec_digit(n % 10))
    }
}

pub open spec fn is_dec_digit(c: char) -> bool {
    c == '0' || c == '1' || c == '2' || c == '3' || c == '4' || c == '5' || c == '6' || c == '7'
        || c == '8' || c == '9'
}

pub open spec fn digit_val(c: char) -> int {
    if c == '0' {
        0
    } else if c == '1' {
        1
    } else if c == '2' {
        2
    } else if c == '3' {
        3
    } else if c == '4' {
        4
    } else if c == '5' {
        5
    } else if c == '6' {
        6
    } else if c == '7' {
        7
    } else if c == '8' {
        8
    } else {
        9
    }
}

pub open spec fn all_digits(s: Seq<char>) -> bool {
    forall|i: int| 0 <= i < s.len() ==> is_dec_digit(s[i])
}

/// The value of a digit string read in base ten.
pub open spec fn dec_value(s: Seq<char>) -> int
    decreases s.len(),
{
    if s.len() == 0 {
        0
    } else {
        dec_value(s.drop_last()) * 10 + digit_val(s.last())
    }
}

/// `sub` occurs contiguously somewhere in `s`.
pub open spec fn contains_seq(s: Seq<char>, sub: Seq<char>) -> bool {
    exists|i: int| 0 <= i && i + sub.len() <= s.len() && #[trigger] s.subrange(i, i + sub.len())
        == sub
}

/// `s` begins with `pre`.
pub open spec fn starts_with_seq(s: Seq<char>, pre: Seq<char>) -> bool {
    pre.len() <= s.len() && s.subrange(0, pre.len() as int) == pre
}

/// Character-for-character equality of two string slices.
pub fn str_eq(a: &str, b: &str) -> (r: bool)
    ensures
        r == (a@ == b@),
{
    let na: usize = a.unicode_len();
    let nb: usize = b.unicode_len();
    if na != nb {
        return false;
    }
    let mut i: usize = 0;
    while i < na
        invariant
            na == a@.len(),
            nb == b@.len(),
            na == nb,
            0 <= i <= na,
            forall|j: int| 0 <= j < i ==> a@[j] == b@[j],
        decreases na - i,
    {
        if a.get_char(i) != b.get_char(i) {
            return false;
        }
        i = i + 1;
    }
    proof {
        assert(a@ =~= b@);
    }
    true
}

/// First `'\n'` at or after `start`, as an executable search.
pub fn find_newline(s: &str, start: usize) -> (r: usize)
    requires
        start <= s@.len(),
    ensures
        r == next_newline(s@, start as int),
        start <= r <= s@.len(),
{
    let n: usize = s.unicode_len();
    let mut i: usize = start;
    while i < n
        invariant
            n == s@.len(),
            start <= i <= n,
            next_newline(s@, start as int) == next_newline(s@, i as int),
        decreases n - i,
    {
        if s.get_char(i) == '\n' {
            return i;
        }
        i = i + 1;
    }
    i
}

/// Split a text into its lines.
pub fn split_lines(s: &str) -> (r: Vec<String>)
    ensures
        r@.map_values(|l: String| l@) == lines_of(s@),
        r@.len() >= 1,
{
    let n: usize = s.unicode_len();
    let mut out: Vec<String> = Vec::new();
    let mut start: usize = 0;
    loop
        invariant_except_break
            out@.map_values(|l: String| l@) + lines_from(s@, start as int) == lines_of(s@),
        invariant
            n == s@.len(),
            0 <= start <= n,
        ensures
            out@.map_values(|l: String| l@) == lines_of(s@),
        decreases n - start,
    {
        let i: usize = find_newline(s, start);
        let line: String = s.substring_char(start, i).to_owned();
        proof {
            lemma_next_newline(s@, start as int);
        }
        out.push(line);
        if i >= n {
            proof {
                assert(lines_from(s@, start as int) =~= seq![
                    s@.subrange(start as int, s@.len() as int),
                ]);
                assert(out@.map_values(|l: String| l@) =~= lines_of(s@));
            }
            break;
        }
        start = i + 1;
        proof {
            assert(out@.map_values(|l: String| l@) + lines_from(s@, start as int)
                =~= lines_of(s@));
        }
    }
    proof {
        assert(lines_from(s@, 0).len() >= 1) by {
            lemma_lines_from_count(s@, 0);
        }
        assert(out@.len() == out@.map_values(|l: String| l@).len());
    }
    out
}

/// Join `lines[from..to]` with single spaces.
pub fn join_with_space(lines: &Vec<String>, from: usize, to: usize) -> (r: String)
    requires
        from <= to <= lines@.len(),
    ensures
        r@ == join_space(lines@.map_values(|l: String| l@).subrange(from as int, to as int)),
{
    let ghost all = lines@.map_values(|l: String| l@);
    let ghost whole = join_space(all.subrange(from as int, to as int));
    let mut r: String = String::new();
    let mut i: usize = from;
    while i < to
        invariant
            from <= i <= to <= lines@.len(),
            all == lines@.map_values(|l: String| l@),
            whole == join_space(all.subrange(from as int, to as int)),
            i == from ==> r@ == Seq::<char>::empty(),
            from < i < to ==> r@ + seq![' '] + join_space(all.subrange(i as int, to as int))
                == whole,
            i == to && i > from ==> r@ == whole,
        decreases to - i,
    {
        let ghost r0 = r@;
        let ghost i0 = i as int;
        if i > from {
            r.append(" ");
        }
        r.append(lines[i].as_str());
        i = i + 1;
        proof {
            reveal_strlit(" ");
            let subi = all.subrange(i0, to as int);
            assert(subi[0] == all[i0]);
            assert(subi.drop_first() =~= all.subrange(i0 + 1, to as int));
            assert(all[i0] == lines@[i0]@);
            if i0 > from {
                assert(r@ =~= r0 + seq![' '] + all[i0]);
            } else {
                assert(r@ =~= all[i0]);
            }
            if i0 + 1 < to {
                assert(join_space(subi) == subi[0] + seq![' '] + join_space(subi.drop_first()));
                if i0 == from {
                    assert(r@ + seq![' '] + join_space(all.subrange(i0 + 1, to as int)) =~= subi[0]
                        + seq![' '] + join_space(subi.drop_first()));
                } else {
                    assert(r@ + seq![' '] + join_space(all.subrange(i0 + 1, to as int)) =~= r0
                        + seq![' '] + join_space(subi));
                }
            } else {
                assert(join_space(subi) == subi[0]);
                if i0 == from {
                    assert(r@ =~= whole);
                } else {
                    assert(r0 + seq![' '] + join_space(subi) =~= r@);
                }
            }
        }
    }
    proof {
        if from == to {
            assert(all.subrange(from as int, to as int).len() == 0);
            assert(whole == Seq::<char>::empty());
        }
    }
    r
}

/// One decimal digit as a string slice.
fn digit_str(d: usize) -> (r: &'static str)
    requires
        d < 10,
    ensures
        r@ == seq![dec_digit(d as int)],
{
    proof {
        reveal_strlit("0");
        reveal_strlit("1");
        reveal_strlit("2");
        reveal_strlit("3");
        reveal_strlit("4");
        reveal_strlit("5");
        reveal_strlit("6");
        reveal_strlit("7");
        reveal_strlit("8");
        reveal_strlit("9");
    }
    match d {
        0 => "0",
        1 => "1",
        2 => "2",
        3 => "3",
        4 => "4",
        5 => "5",
        6 => "6",
        7 => "7",
        8 => "8",
        _ => "9",
    }
}

/// Decimal rendering of an unsigned integer.
pub fn usize_to_string(n: usize) -> (r: String)
    ensures
        r@ == dec_str(n as int),
    decreases n,
{
    if n < 10 {
        digit_str(n).to_owned()
    } else {
        let mut s: String = usize_to_string(n / 10);
        s.append(digit_str(n % 10));
        proof {
            assert(s@ =~= dec_str(n as int));
        }
        s
    }
}

/// Every longer digit prefix reads at least as large a value.
proof fn lemma_dec_value_nonneg(s: Seq<char>)
    requires
        all_digits(s),
    ensures
        dec_value(s) >= 0,
    decreases s.len(),
{
    if s.len() > 0 {
        assert(all_digits(s.drop_last()));
        lemma_dec_value_nonneg(s.drop_last());
    }
}

proof fn lemma_dec_value_prefix(s: Seq<char>, i: int)
    requires
        all_digits(s),
        0 <= i <= s.len(),
    ensures
        dec_value(s.subrange(0, i)) <= dec_value(s),
    decreases s.len() - i,
{
    if i < s.len() {
        lemma_dec_value_prefix(s, i + 1);
        let p = s.subrange(0, i);
        let q = s.subrange(0, i + 1);
        assert(q.drop_last() =~= p);
        assert(all_digits(p));
        lemma_dec_value_nonneg(p);
    } else {
        assert(s.subrange(0, i) =~= s);
    }
}

/// Whether `parse_usize` succeeds on `s`: an optional `'+'`, then at least
/// one digit, reading a value that fits in `usize`.
pub open spec fn parse_usize_ok(s: Seq<char>) -> bool {
    let body = if s.len() > 0 && s[0] == '+' {
        s.drop_first()
    } else {
        s
    };
    body.len() > 0 && all_digits(body) && dec_value(body) <= usize::MAX
}

/// The value `parse_usize` reads when it succeeds.
pub open spec fn parse_usize_val(s: Seq<char>) -> int {
    if s.len() > 0 && s[0] == '+' {
        dec_value(s.drop_first())
    } else {
        dec_value(s)
    }
}

/// Read a non-negative decimal integer, as `str::parse::<usize>` would:
/// an optional leading `'+'`, then digits only, rejecting overflow.
pub fn parse_usize(s: &str) -> (r: Option<usize>)
    ensures
        parse_usize_ok(s@) ==> (r matches Some(v) && v as int == parse_usize_val(s@)),
        !parse_usize_ok(s@) ==> r is None,
{
    let n: usize = s.unicode_len();
    let mut i: usize = 0;
    if n > 0 && s.get_char(0) == '+' {
        i = 1;
    }
    let ghost body = if s@.len() > 0 && s@[0] == '+' {
        s@.drop_first()
    } else {
        s@
    };
    let ghost off = i as int;
    if i >= n {
        proof {
            assert(body =~= s@.subrange(off, n as int));
            assert(body.len() == 0);
        }
        return None;
    }
    proof {
        assert(body =~= s@.subrange(off, n as int));
    }
    let mut acc: usize = 0;
    let mut j: usize = i;
    while j < n
        invariant
            n == s@.len(),
            off == i,
            0 <= off <= 1,
            off <= j <= n,
            off == 1 ==> s@.len() > 0 && s@[0] == '+',
            off == 0 ==> !(s@.len() > 0 && s@[0] == '+'),
            body == s@.subrange(off, n as int),
            all_digits(body.subrange(0, j - off)),
            acc == dec_value(body.subrange(0, j - off)),
        decreases n - j,
    {
        let c = s.get_char(j);
        let d: usize = if c == '0' {
            0
        } else if c == '1' {
            1
        } else if c == '2' {
            2
        } else if c == '3' {
            3
        } else if c == '4' {
            4
        } else if c == '5' {
            5
        } else if c == '6' {
            6
        } else if c == '7' {
            7
        } else if c == '8' {
            8
        } else if c == '9' {
            9
        } else {
            proof {
                assert(body[j - off] == s@[j as int]);
                assert(!is_dec_digit(body[j - off]));
                assert(!all_digits(body));
            }
            return None;
        };
        proof {
            assert(body[j - off] == s@[j as int]);
            assert(is_dec_digit(body[j - off]) && digit_val(body[j - off]) == d);
        }
        let next: Option<usize> = match acc.checked_mul(10) {
            Some(v) => v.checked_add(d),
            None => None,
        };
        let w: usize = match next {
            Some(w) => w,
            None => {
                proof {
                    let p = body.subrange(0, j - off + 1);
                    assert(p.drop_last() =~= body.subrange(0, j - off));
                    assert(p.last() == body[j - off]);
                    assert(dec_value(p) == acc * 10 + d);
                    assert(dec_value(p) > usize::MAX);
                    if all_digits(body) {
                        lemma_dec_value_prefix(body, j - off + 1);
                        assert(dec_value(body) >= dec_value(p));
                        assert(dec_value(body) > usize::MAX);
                    }
                    let sbody = if s@.len() > 0 && s@[0] == '+' {
                        s@.drop_first()
                    } else {
                        s@
                    };
                    assert(sbody =~= body);
                    assert(!(sbody.len() > 0 && all_digits(sbody) && dec_value(sbody)
                        <= usize::MAX));
                    assert(!parse_usize_ok(s@));
                }
                return None;
            },
        };
        acc = w;
        proof {
            let p = body.subrange(0, j - off + 1);
            assert(p.drop_last() =~= body.subrange(0, j - off));
            assert(p.last() == body[j - off]);
            assert(all_digits(p));
        }
        j = j + 1;
    }
    proof {
        assert(body.subrange(0, n - off) =~= body);
    }
    Some(acc)
}

/// Executable substring search against `contains_seq`.
pub fn contains_str(s: &str, sub: &str) -> (r: bool)
    ensures
        r == contains_seq(s@, sub@),
{
    let n: usize = s.unicode_len();
    let m: usize = sub.unicode_len();
    if m > n {
        proof {
            assert(!contains_seq(s@, sub@));
        }
        return false;
    }
    if m == 0 {
        proof {
            assert(contains_seq(s@, sub@)) by {
                assert(s@.subrange(0, 0 + sub@.len() as int) =~= sub@);
            }
        }
        return true;
    }
    let mut i: usize = 0;
    while i <= n - m
        invariant
            n == s@.len(),
            m == sub@.len(),
            1 <= m <= n,
            0 <= i <= n - m + 1,
            forall|p: int|
                0 <= p < i ==> #[trigger] s@.subrange(p, p + sub@.len()) != sub@,
        decreases n - m + 1 - i,
    {
        let mut j: usize = 0;
        let mut ok: bool = true;
        while j < m
            invariant
                n == s@.len(),
                m == sub@.len(),
                0 <= i <= n - m,
                0 <= j <= m,
                ok ==> forall|q: int| 0 <= q < j ==> s@[i + q] == sub@[q],
                !ok ==> s@.subrange(i as int, i + sub@.len()) != sub@,
            decreases m - j,
        {
            if s.get_char(i + j) != sub.get_char(j) {
                proof {
                    assert(s@.subrange(i as int, i + sub@.len())[j as int] == s@[i + j]);
                }
                ok = false;
                j = m;
            } else {
                j = j + 1;
            }
        }
        if ok {
            proof {
                assert(s@.subrange(i as int, i + sub@.len()) =~= sub@);
            }
            return true;
        }
        i = i + 1;
    }
    proof {
        assert forall|p: int| 0 <= p && p + sub@.len() <= s@.len() implies #[trigger] s@.subrange(
            p,
            p + sub@.len(),
        ) != sub@ by {
            assert(p < i);
        }
    }
    false
}

/// Executable prefix test against `starts_with_seq`.
pub fn str_starts_with(s: &str, pre: &str) -> (r: bool)
    ensures
        r == starts_with_seq(s@, pre@),
{
    let n: usize = s.unicode_len();
    let m: usize = pre.unicode_len();
    if m > n {
        return false;
    }
    let mut j: usize = 0;
    while j < m
        invariant
            n == s@.len(),
            m == pre@.len(),
            m <= n,
            0 <= j <= m,
            forall|q: int| 0 <= q < j ==> s@[q] == pre@[q],
        decreases m - j,
    {
        if s.get_char(j) != pre.get_char(j) {
            proof {
                assert(s@.subrange(0, pre@.len() as int)[j as int] == s@[j as int]);
            }
            return false;
        }
        j = j + 1;
    }
    proof {
        assert(s@.subrange(0, pre@.len() as int) =~= pre@);
    }
    true
}

} // verus!
