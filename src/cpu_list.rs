use vstd::prelude::*;

verus! {

/// Why a core list was refused.
#[derive(Clone, Copy, Debug, PartialEq, Eq, Structural)]
pub enum CpuListError {
    /// A token, or one end of a range, is not a number that fits in a `u32`.
    InvalidCpu,
    /// A range `A-B` with `A > B`.
    InvalidRange,
}

/// Whitespace as `char::is_whitespace` has it: the Unicode `White_Space` property.
pub open spec fn is_space(c: char) -> bool {
    ||| ('\u{9}' <= c && c <= '\u{d}')
    ||| c == ' '
    ||| c == '\u{85}'
    ||| c == '\u{a0}'
    ||| c == '\u{1680}'
    ||| ('\u{2000}' <= c && c <= '\u{200a}')
    ||| c == '\u{2028}'
    ||| c == '\u{2029}'
    ||| c == '\u{202f}'
    ||| c == '\u{205f}'
    ||| c == '\u{3000}'
}

pub open spec fn trim_start(s: Seq<char>) -> Seq<char>
    decreases s.len(),
{
    if s.len() > 0 && is_space(s[0]) {
        trim_start(s.drop_first())
    } else {
        s
    }
}

pub open spec fn trim_end(s: Seq<char>) -> Seq<char>
    decreases s.len(),
{
    if s.len() > 0 && is_space(s.last()) {
        trim_end(s.drop_last())
    } else {
        s
    }
}

/// `s` without whitespace at either end.
pub open spec fn trim(s: Seq<char>) -> Seq<char> {
    trim_end(trim_start(s))
}

/// Index of the first `c` in `s`, or `s.len()` where there is none.
pub open spec fn first_at(s: Seq<char>, c: char) -> int
    decreases s.len(),
{
    if s.len() == 0 {
        0
    } else if s[0] == c {
        0
    } else {
        1 + first_at(s.drop_first(), c)
    }
}

pub open spec fn is_digit(c: char) -> bool {
    '0' <= c && c <= '9'
}

/// The value of a string of decimal digits.
pub open spec fn digits_value(s: Seq<char>) -> int
    decreases s.len(),
{
    if s.len() == 0 {
        0
    } else {
        digits_value(s.drop_last()) * 10 + (s.last() as int - '0' as int)
    }
}

/// The digits of a number as `str::parse::<u32>` reads it: an optional `+`
/// sign before them.
pub open spec fn unsigned_digits(t: Seq<char>) -> Seq<char> {
    if t.len() > 0 && t[0] == '+' {
        t.drop_first()
    } else {
        t
    }
}

/// `t` is a number that `str::parse::<u32>` accepts.
pub open spec fn is_cpu_number(t: Seq<char>) -> bool {
    let d = unsigned_digits(t);
    &&& d.len() > 0
    &&& forall|i: int| 0 <= i < d.len() ==> is_digit(d[i])
    &&& digits_value(d) <= u32::MAX
}

pub open spec fn cpu_number(t: Seq<char>) -> u32 {
    digits_value(unsigned_digits(t)) as u32
}

/// Every integer from `a` to `b`, both included, in increasing order.
pub open spec fn cpu_range(a: u32, b: u32) -> Seq<u32> {
    Seq::new((b - a + 1) as nat, |i: int| (a + i) as u32)
}

/// The cores that one token names: a single number, or an inclusive range `A-B`.
pub open spec fn token_cpus(t: Seq<char>) -> Result<Seq<u32>, CpuListError> {
    let k = first_at(t, '-');
    if k < t.len() {
        let a = t.subrange(0, k);
        let b = t.subrange(k + 1, t.len() as int);
        if !is_cpu_number(a) || !is_cpu_number(b) {
            Err(CpuListError::InvalidCpu)
        } else if cpu_number(a) > cpu_number(b) {
            Err(CpuListError::InvalidRange)
        } else {
            Ok(cpu_range(cpu_number(a), cpu_number(b)))
        }
    } else if is_cpu_number(t) {
        Ok(seq![cpu_number(t)])
    } else {
        Err(CpuListError::InvalidCpu)
    }
}

/// The cores that a comma-separated list of tokens names, token after token,
/// as written: nothing is sorted or removed. The first bad token decides the error.
pub open spec fn list_cpus(s: Seq<char>) -> Result<Seq<u32>, CpuListError>
    decreases s.len(),
{
    let k = first_at(s, ',');
    match token_cpus(s.subrange(0, k)) {
        Err(e) => Err(e),
        Ok(v) => if 0 <= k < s.len() {
            match list_cpus(s.subrange(k + 1, s.len() as int)) {
                Err(e) => Err(e),
                Ok(w) => Ok(v + w),
            }
        } else {
            Ok(v)
        },
    }
}

proof fn lemma_first_at(s: Seq<char>, c: char)
    ensures
        0 <= first_at(s, c) <= s.len(),
        forall|j: int| 0 <= j < first_at(s, c) ==> s[j] != c,
        first_at(s, c) < s.len() ==> s[first_at(s, c)] == c,
    decreases s.len(),
{
    if s.len() > 0 && s[0] != c {
        lemma_first_at(s.drop_first(), c);
        assert forall|j: int| 0 <= j < first_at(s, c) implies s[j] != c by {
            if j > 0 {
                assert(s[j] == s.drop_first()[j - 1]);
            }
        }
    }
}

proof fn lemma_first_at_unique(s: Seq<char>, c: char, k: int)
    requires
        0 <= k <= s.len(),
        forall|j: int| 0 <= j < k ==> s[j] != c,
        k < s.len() ==> s[k] == c,
    ensures
        first_at(s, c) == k,
{
    lemma_first_at(s, c);
    let f = first_at(s, c);
    if f < k {
        assert(s[f] == c);
    } else if k < f {
        assert(s[k] != c);
    }
}

/// The characters of `s`, one by one.
fn chars_of(s: &str) -> (r: Vec<char>)
    ensures
        r@ == s@,
{
    let n = s.unicode_len();
    let mut r: Vec<char> = Vec::new();
    let mut i: usize = 0;
    while i < n
        invariant
            n == s@.len(),
            i <= n,
            r@ == s@.subrange(0, i as int),
        decreases n - i,
    {
        r.push(s.get_char(i));
        i = i + 1;
        assert(r@ =~= s@.subrange(0, i as int));
    }
    assert(r@ =~= s@);
    r
}

fn is_space_char(c: char) -> (r: bool)
    ensures
        r == is_space(c),
{
    ('\u{9}' <= c && c <= '\u{d}') || c == ' ' || c == '\u{85}' || c == '\u{a0}' || c
        == '\u{1680}' || ('\u{2000}' <= c && c <= '\u{200a}') || c == '\u{2028}' || c
        == '\u{2029}' || c == '\u{202f}' || c == '\u{205f}' || c == '\u{3000}'
}

/// Bounds `(lo, hi)` of `s` without whitespace at either end.
fn trim_bounds(s: &Vec<char>) -> (r: (usize, usize))
    ensures
        r.0 <= r.1 <= s@.len(),
        s@.subrange(r.0 as int, r.1 as int) == trim(s@),
{
    let n = s.len();
    let mut lo: usize = 0;
    assert(s@.subrange(0, n as int) =~= s@);
    while lo < n && is_space_char(s[lo])
        invariant
            lo <= n == s@.len(),
            trim_start(s@) == trim_start(s@.subrange(lo as int, n as int)),
        decreases n - lo,
    {
        assert(s@.subrange(lo as int, n as int).drop_first() =~= s@.subrange(
            lo as int + 1,
            n as int,
        ));
        lo = lo + 1;
    }
    let ghost t = s@.subrange(lo as int, n as int);
    assert(trim_start(s@) == t);
    let mut hi: usize = n;
    while hi > lo && is_space_char(s[hi - 1])
        invariant
            lo <= hi <= n == s@.len(),
            trim(s@) == trim_end(s@.subrange(lo as int, hi as int)),
        decreases hi - lo,
    {
        assert(s@.subrange(lo as int, hi as int).drop_last() =~= s@.subrange(
            lo as int,
            hi as int - 1,
        ));
        hi = hi - 1;
    }
    (lo, hi)
}

/// Index of the first `c` in `s[lo..hi]`, counted from the start of `s`, or `hi`.
fn find_char(s: &Vec<char>, lo: usize, hi: usize, c: char) -> (r: usize)
    requires
        lo <= hi <= s@.len(),
    ensures
        lo <= r <= hi,
        r - lo == first_at(s@.subrange(lo as int, hi as int), c),
{
    let mut i: usize = lo;
    while i < hi && s[i] != c
        invariant
            lo <= i <= hi <= s@.len(),
            forall|j: int| lo <= j < i ==> s@[j] != c,
        decreases hi - i,
    {
        i = i + 1;
    }
    proof {
        let t = s@.subrange(lo as int, hi as int);
        lemma_first_at_unique(t, c, i - lo);
    }
    i
}

/// The number that `s[lo..hi]` spells, if `str::parse::<u32>` accepts it.
fn parse_number(s: &Vec<char>, lo: usize, hi: usize) -> (r: Option<u32>)
    requires
        lo <= hi <= s@.len(),
    ensures
        ({
            let t = s@.subrange(lo as int, hi as int);
            match r {
                Some(v) => is_cpu_number(t) && v == cpu_number(t),
                None => !is_cpu_number(t),
            }
        }),
{
    let ghost t = s@.subrange(lo as int, hi as int);
    let start: usize = if lo < hi && s[lo] == '+' {
        lo + 1
    } else {
        lo
    };
    let ghost d = s@.subrange(start as int, hi as int);
    assert(unsigned_digits(t) =~= d);
    if start == hi {
        return None;
    }
    let mut acc: u64 = 0;
    let mut i: usize = start;
    while i < hi
        invariant
            lo <= start <= i <= hi <= s@.len(),
            d == s@.subrange(start as int, hi as int),
            t == s@.subrange(lo as int, hi as int),
            unsigned_digits(t) == d,
            forall|j: int| start <= j < i ==> is_digit(s@[j]),
            acc == digits_value(s@.subrange(start as int, i as int)),
            acc <= u32::MAX,
        decreases hi - i,
    {
        let c = s[i];
        if !('0' <= c && c <= '9') {
            assert(d[i - start] == s@[i as int]);
            assert(!is_digit(d[i - start]));
            return None;
        }
        assert(s@.subrange(start as int, i + 1).drop_last() =~= s@.subrange(
            start as int,
            i as int,
        ));
        let next: u64 = acc * 10 + (c as u64 - '0' as u64);
        if next > u32::MAX as u64 {
            assert(d.subrange(0, i + 1 - start) =~= s@.subrange(start as int, i + 1));
            proof {
                if is_cpu_number(t) {
                    lemma_digits_value_grows(d, i + 1 - start);
                }
            }
            return None;
        }
        acc = next;
        i = i + 1;
    }
    assert(d =~= s@.subrange(start as int, i as int));
    Some(acc as u32)
}

/// A prefix of digits is worth no more than the whole string of digits.
proof fn lemma_digits_value_grows(d: Seq<char>, k: int)
    requires
        0 <= k <= d.len(),
        forall|i: int| 0 <= i < d.len() ==> is_digit(d[i]),
    ensures
        digits_value(d.subrange(0, k)) <= digits_value(d),
    decreases d.len(),
{
    if k < d.len() {
        let e = d.drop_last();
        assert(e.subrange(0, k) =~= d.subrange(0, k));
        lemma_digits_value_grows(e, k);
        lemma_digits_value_nonneg(e);
    } else {
        assert(d.subrange(0, k) =~= d);
    }
}

proof fn lemma_digits_value_nonneg(d: Seq<char>)
    requires
        forall|i: int| 0 <= i < d.len() ==> is_digit(d[i]),
    ensures
        digits_value(d) >= 0,
    decreases d.len(),
{
    if d.len() > 0 {
        lemma_digits_value_nonneg(d.drop_last());
    }
}

/// The core list seen from a `Vec`.
pub open spec fn list_view(r: Result<Vec<u32>, CpuListError>) -> Result<Seq<u32>, CpuListError> {
    match r {
        Ok(v) => Ok(v@),
        Err(e) => Err(e),
    }
}

/// `head` followed by the cores of `rest`, or the error of `rest`.
pub open spec fn prepend(head: Seq<u32>, rest: Result<Seq<u32>, CpuListError>) -> Result<
    Seq<u32>,
    CpuListError,
> {
    match rest {
        Ok(w) => Ok(head + w),
        Err(e) => Err(e),
    }
}

/// Reads a core list such as `1,4-6,8-12,15`: comma-separated tokens, each
/// a core number or an inclusive range `A-B` with `A <= B`, after whitespace
/// at either end is taken off. The cores come out as written, ranges
/// expanded; duplicates and order are kept.
pub fn parse_cpu_list(cpu_list_str: &str) -> (r: Result<Vec<u32>, CpuListError>)
    ensures
        list_view(r) == list_cpus(trim(cpu_list_str@)),
{
    let chars = chars_of(cpu_list_str);
    let (lo, hi) = trim_bounds(&chars);
    let ghost t = chars@.subrange(lo as int, hi as int);
    let mut result: Vec<u32> = Vec::new();
    let mut pos: usize = lo;
    assert(chars@.subrange(pos as int, hi as int) =~= t);
    assert(result@ + Seq::<u32>::empty() =~= Seq::<u32>::empty());
    assert(prepend(result@, list_cpus(t)) =~= list_cpus(t)) by {
        match list_cpus(t) {
            Ok(w) => {
                assert(result@ + w =~= w);
            },
            Err(e) => {},
        }
    }
    loop
        invariant
            lo <= pos <= hi <= chars@.len(),
            chars@ == cpu_list_str@,
            t == trim(cpu_list_str@),
            list_cpus(t) == prepend(result@, list_cpus(chars@.subrange(pos as int, hi as int))),
        decreases hi - pos,
    {
        let ghost rest = chars@.subrange(pos as int, hi as int);
        let k = find_char(&chars, pos, hi, ',');
        assert(rest.subrange(0, k - pos) =~= chars@.subrange(pos as int, k as int));
        let ghost before = result@;
        match push_token_cpus(&chars, pos, k, &mut result) {
            Err(e) => {
                return Err(e);
            },
            Ok(()) => {},
        }
        if k < hi {
            assert(rest.subrange(k - pos + 1, rest.len() as int) =~= chars@.subrange(
                k + 1,
                hi as int,
            ));
            let ghost tail = list_cpus(chars@.subrange(k + 1, hi as int));
            assert(prepend(before, list_cpus(rest)) == prepend(result@, tail)) by {
                match tail {
                    Ok(w) => {
                        let v = token_cpus(chars@.subrange(pos as int, k as int))->Ok_0;
                        assert(before + (v + w) =~= (before + v) + w);
                    },
                    Err(e) => {},
                }
            }
            pos = k + 1;
        } else {
            assert(prepend(before, list_cpus(rest)) == Ok::<Seq<u32>, CpuListError>(result@));
            return Ok(result);
        }
    }
}

/// Appends to `out` the cores that the token `s[lo..hi]` names.
fn push_token_cpus(s: &Vec<char>, lo: usize, hi: usize, out: &mut Vec<u32>) -> (r: Result<
    (),
    CpuListError,
>)
    requires
        lo <= hi <= s@.len(),
    ensures
        match token_cpus(s@.subrange(lo as int, hi as int)) {
            Ok(v) => r is Ok && final(out)@ == old(out)@ + v,
            Err(e) => r == Err::<(), CpuListError>(e),
        },
{
    let ghost t = s@.subrange(lo as int, hi as int);
    let k = find_char(s, lo, hi, '-');
    if k < hi {
        assert(t.subrange(0, k - lo) =~= s@.subrange(lo as int, k as int));
        assert(t.subrange(k - lo + 1, t.len() as int) =~= s@.subrange(k + 1, hi as int));
        let a = parse_number(s, lo, k);
        let b = parse_number(s, k + 1, hi);
        match (a, b) {
            (Some(a), Some(b)) => {
                if a > b {
                    return Err(CpuListError::InvalidRange);
                }
                push_range(a, b, out);
                Ok(())
            },
            _ => Err(CpuListError::InvalidCpu),
        }
    } else {
        match parse_number(s, lo, hi) {
            Some(v) => {
                out.push(v);
                assert(seq![v] =~= Seq::<u32>::empty().push(v));
                Ok(())
            },
            None => Err(CpuListError::InvalidCpu),
        }
    }
}

/// Appends every core from `a` to `b`, both included.
fn push_range(a: u32, b: u32, out: &mut Vec<u32>)
    requires
        a <= b,
    ensures
        final(out)@ == old(out)@ + cpu_range(a, b),
{
    let mut c: u32 = a;
    loop
        invariant
            a <= c <= b,
            out@ == old(out)@ + Seq::new((c - a) as nat, |i: int| (a + i) as u32),
        decreases b - c,
    {
        out.push(c);
        assert(out@ =~= old(out)@ + Seq::new((c + 1 - a) as nat, |i: int| (a + i) as u32));
        if c == b {
            assert(Seq::new((c + 1 - a) as nat, |i: int| (a + i) as u32) =~= cpu_range(a, b));
            return;
        }
        c = c + 1;
    }
}

} // verus!
