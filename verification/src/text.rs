//! Byte-level helpers of the log grammar: splitting a line on a delimiter and
//! reading unsigned numbers.

use vstd::prelude::*;
use vstd::string::StringSliceAdditionalSpecFns;

verus! {

/// Position of the first occurrence of `d` in `s`, or `s.len()` if there is none.
pub open spec fn find(s: Seq<u8>, d: u8) -> int
    decreases s.len(),
{
    if s.len() == 0 {
        0
    } else if s[0] == d {
        0
    } else {
        1 + find(s.drop_first(), d)
    }
}

/// The pieces of `s` between occurrences of `d`. There is always at least one
/// piece; an empty line is a single empty piece.
pub open spec fn split(s: Seq<u8>, d: u8) -> Seq<Seq<u8>>
    decreases s.len(),
{
    let k = find(s, d);
    if 0 <= k < s.len() {
        seq![s.take(k)] + split(s.skip(k + 1), d)
    } else {
        seq![s]
    }
}

/// `find` is a position of the string or its length, with no `d` before it,
/// and with `d` at it where it is a position.
pub proof fn lemma_find(s: Seq<u8>, d: u8)
    ensures
        0 <= find(s, d) <= s.len(),
        forall|j: int| 0 <= j < find(s, d) ==> s[j] != d,
        find(s, d) < s.len() ==> s[find(s, d)] == d,
    decreases s.len(),
{
    if s.len() > 0 && s[0] != d {
        lemma_find(s.drop_first(), d);
        assert forall|j: int| 0 <= j < find(s, d) implies s[j] != d by {
            if j > 0 {
                assert(s[j] == s.drop_first()[j - 1]);
            }
        }
    }
}

/// `find` is the only position that has `d` with no `d` before it.
pub proof fn lemma_find_unique(s: Seq<u8>, d: u8, k: int)
    requires
        0 <= k <= s.len(),
        forall|j: int| 0 <= j < k ==> s[j] != d,
        k < s.len() ==> s[k] == d,
    ensures
        find(s, d) == k,
{
    lemma_find(s, d);
}

/// The pieces with the delimiter between each two.
pub open spec fn join(parts: Seq<Seq<u8>>, d: u8) -> Seq<u8>
    decreases parts.len(),
{
    if parts.len() == 0 {
        Seq::empty()
    } else if parts.len() == 1 {
        parts[0]
    } else {
        parts[0] + seq![d] + join(parts.drop_first(), d)
    }
}

/// Joining the pieces of a line with the delimiter gives the line back, and
/// no piece holds the delimiter: the pieces are determined by the line.
pub proof fn lemma_split_join(s: Seq<u8>, d: u8)
    ensures
        split(s, d).len() >= 1,
        join(split(s, d), d) == s,
        forall|i: int| 0 <= i < split(s, d).len() ==> !(#[trigger] split(s, d)[i]).contains(d),
    decreases s.len(),
{
    lemma_find(s, d);
    let k = find(s, d);
    if k < s.len() {
        let rest = split(s.skip(k + 1), d);
        lemma_split_join(s.skip(k + 1), d);
        let parts = split(s, d);
        assert(parts.drop_first() =~= rest);
    }
}

/// Joining one more piece to a list puts it after the delimiter, unless it is
/// the first.
pub proof fn lemma_join_push(parts: Seq<Seq<u8>>, last: Seq<u8>, d: u8)
    ensures
        join(parts.push(last), d) == if parts.len() == 0 {
            last
        } else {
            join(parts, d) + seq![d] + last
        },
    decreases parts.len(),
{
    let all = parts.push(last);
    if parts.len() == 1 {
        assert(join(all.drop_first(), d) == last);
    } else if parts.len() > 1 {
        lemma_join_push(parts.drop_first(), last, d);
        assert(all.drop_first() =~= parts.drop_first().push(last));
    }
}

/// The byte strings that a vector of owned byte strings holds.
pub open spec fn views(v: Seq<Vec<u8>>) -> Seq<Seq<u8>> {
    v.map_values(|t: Vec<u8>| t@)
}

/// Splits a line into owned pieces.
pub fn split_line(line: &[u8], d: u8) -> (parts: Vec<Vec<u8>>)
    ensures
        views(parts@) == split(line@, d),
{
    let mut parts: Vec<Vec<u8>> = Vec::new();
    let mut cur: Vec<u8> = Vec::new();
    let mut start: usize = 0;
    let mut i: usize = 0;
    assert(views(parts@) + split(line@.skip(0), d) =~= split(line@, d)) by {
        assert(line@.skip(0) =~= line@);
    }
    while i < line.len()
        invariant
            0 <= start <= i <= line.len(),
            cur@ == line@.subrange(start as int, i as int),
            forall|j: int| start <= j < i ==> line@[j] != d,
            split(line@, d) == views(parts@) + split(line@.skip(start as int), d),
        decreases line.len() - i,
    {
        let b: u8 = line[i];
        if b == d {
            proof {
                let rest = line@.skip(start as int);
                lemma_find_unique(rest, d, i - start);
                assert(rest.take(i - start) =~= cur@);
                assert(rest.skip(i - start + 1) =~= line@.skip(i + 1));
            }
            parts.push(cur);
            cur = Vec::new();
            start = i + 1;
        } else {
            cur.push(b);
        }
        i += 1;
    }
    proof {
        let rest = line@.skip(start as int);
        lemma_find_unique(rest, d, rest.len() as int);
    }
    parts.push(cur);
    parts
}

/// Joins the pieces from `start` up to `end` with the delimiter.
pub fn join_tokens(parts: &Vec<Vec<u8>>, start: usize, end: usize, d: u8) -> (r: Vec<u8>)
    requires
        start <= end <= parts.len(),
    ensures
        r@ == join(views(parts@).subrange(start as int, end as int), d),
{
    let ghost all = views(parts@).subrange(start as int, end as int);
    let mut out: Vec<u8> = Vec::new();
    let mut i: usize = start;
    while i < end
        invariant
            start <= i <= end <= parts.len(),
            all == views(parts@).subrange(start as int, end as int),
            out@ == join(all.take(i - start), d),
        decreases end - i,
    {
        proof {
            lemma_join_push(all.take(i - start), parts@[i as int]@, d);
            assert(all.take(i - start).push(parts@[i as int]@) =~= all.take(i + 1 - start));
        }
        if i > start {
            out.push(d);
        }
        let piece = &parts[i];
        let ghost before = out@;
        let mut j: usize = 0;
        while j < piece.len()
            invariant
                0 <= j <= piece.len(),
                out@ == before + piece@.take(j as int),
            decreases piece.len() - j,
        {
            out.push(piece[j]);
            j += 1;
        }
        i += 1;
    }
    assert(all.take(end - start) =~= all);
    out
}

/// Whether two byte strings hold the same bytes.
pub fn bytes_eq(a: &[u8], b: &[u8]) -> (r: bool)
    ensures
        r == (a@ == b@),
{
    if a.len() != b.len() {
        return false;
    }
    let mut i: usize = 0;
    while i < a.len()
        invariant
            a.len() == b.len(),
            0 <= i <= a.len(),
            forall|j: int| 0 <= j < i ==> a@[j] == b@[j],
        decreases a.len() - i,
    {
        if a[i] != b[i] {
            return false;
        }
        i += 1;
    }
    assert(a@ =~= b@);
    true
}

/// The bytes that spell a word.
pub open spec fn word(w: &str) -> Seq<u8> {
    w.spec_bytes()
}

/// Whether a byte string spells the given word.
pub fn is_word(a: &[u8], w: &str) -> (r: bool)
    ensures
        r == (a@ == word(w)),
{
    bytes_eq(a, w.as_bytes())
}

/// An owned copy of the bytes from `from` up to, and without, `to`.
pub fn copy_range(a: &[u8], from: usize, to: usize) -> (r: Vec<u8>)
    requires
        from <= to <= a.len(),
    ensures
        r@ == a@.subrange(from as int, to as int),
{
    let mut r: Vec<u8> = Vec::new();
    let mut i: usize = from;
    while i < to
        invariant
            from <= i <= to <= a.len(),
            r@ == a@.subrange(from as int, i as int),
        decreases to - i,
    {
        r.push(a[i]);
        i += 1;
    }
    r
}

/// An owned copy of a byte string.
pub fn to_owned_bytes(a: &[u8]) -> (r: Vec<u8>)
    ensures
        r@ == a@,
{
    copy_range(a, 0, a.len())
}

/// Whether a byte string begins with the given byte.
pub open spec fn starts_with(s: Seq<u8>, b: u8) -> bool {
    s.len() > 0 && s[0] == b
}

/// Whether a byte string ends with the given byte.
pub open spec fn ends_with(s: Seq<u8>, b: u8) -> bool {
    s.len() > 0 && s.last() == b
}

/// The value of one digit in the given base (10 or 16), if it is one.
pub open spec fn digit_value(b: u8, base: nat) -> Option<nat> {
    let v: int = if 48 <= b <= 57 {
        b - 48
    } else if 97 <= b <= 102 {
        b - 87
    } else if 65 <= b <= 70 {
        b - 55
    } else {
        -1
    };
    if 0 <= v < base {
        Some(v as nat)
    } else {
        None
    }
}

/// The value of a run of digits, most significant first; the empty run is 0.
pub open spec fn digits_value(s: Seq<u8>, base: nat) -> Option<nat>
    decreases s.len(),
{
    if s.len() == 0 {
        Some(0)
    } else {
        match (digits_value(s.drop_last(), base), digit_value(s.last(), base)) {
            (Some(hi), Some(lo)) => Some(hi * base + lo),
            _ => None,
        }
    }
}

/// The number that `s` spells in the given base, if it is a non-empty run of
/// digits whose value is at most `max`.
pub open spec fn number(s: Seq<u8>, base: nat, max: nat) -> Option<nat> {
    if s.len() == 0 {
        None
    } else {
        match digits_value(s, base) {
            Some(v) => if v <= max {
                Some(v)
            } else {
                None
            },
            None => None,
        }
    }
}

/// A run of digits has a value only if each of its prefixes has one, which is
/// no larger.
pub proof fn lemma_digits_prefix(s: Seq<u8>, base: nat, k: int)
    requires
        0 <= k <= s.len(),
        digits_value(s, base) is Some,
    ensures
        digits_value(s.take(k), base) is Some,
        digits_value(s.take(k), base)->0 <= digits_value(s, base)->0,
        k < s.len() ==> digit_value(s[k], base) is Some,
    decreases s.len(),
{
    if k == s.len() {
        assert(s.take(k) =~= s);
    } else {
        lemma_digits_prefix(s.drop_last(), base, k);
        assert(s.drop_last().take(k) =~= s.take(k));
        let hi = digits_value(s.drop_last(), base)->0;
        assert(hi * base >= hi) by (nonlinear_arith)
            requires
                base >= 1,
                hi >= 0,
        ;
    }
}

fn digit_of(b: u8, base: u64) -> (r: Option<u64>)
    requires
        base == 10 || base == 16,
    ensures
        match r {
            Some(v) => digit_value(b, base as nat) == Some(v as nat) && v < base,
            None => digit_value(b, base as nat) is None,
        },
{
    let v: u64 = if 48 <= b && b <= 57 {
        (b - 48) as u64
    } else if 97 <= b && b <= 102 {
        (b - 87) as u64
    } else if 65 <= b && b <= 70 {
        (b - 55) as u64
    } else {
        return None;
    };
    if v < base {
        Some(v)
    } else {
        None
    }
}

/// Reads an unsigned number in base 10 or 16. Anything but a non-empty run of
/// digits is refused, and so is a value above `max`.
pub fn parse_number(s: &[u8], base: u64, max: u64) -> (r: Option<u64>)
    requires
        base == 10 || base == 16,
    ensures
        r == match number(s@, base as nat, max as nat) {
            Some(v) => Some(v as u64),
            None => None,
        },
{
    if s.len() == 0 {
        return None;
    }
    let mut acc: u64 = 0;
    let mut i: usize = 0;
    while i < s.len()
        invariant
            base == 10 || base == 16,
            0 <= i <= s.len(),
            digits_value(s@.take(i as int), base as nat) == Some(acc as nat),
            acc <= max,
        decreases s.len() - i,
    {
        let ghost prefix = s@.take(i + 1);
        assert(prefix.drop_last() =~= s@.take(i as int));
        match digit_of(s[i], base) {
            None => {
                proof {
                    if digits_value(s@, base as nat) is Some {
                        lemma_digits_prefix(s@, base as nat, i as int);
                    }
                }
                return None;
            },
            Some(v) => {
                if v > max || acc > (max - v) / base {
                    proof {
                        assert(acc * base + v > max) by (nonlinear_arith)
                            requires
                                v > max || acc > (max - v) / (base as int),
                                base >= 1,
                                acc >= 0,
                                v >= 0,
                                max >= 0,
                        ;
                        if digits_value(s@, base as nat) is Some {
                            lemma_digits_prefix(s@, base as nat, i + 1);
                        }
                    }
                    return None;
                }
                assert(acc * base + v <= max) by (nonlinear_arith)
                    requires
                        acc <= (max - v) / (base as int),
                        v <= max,
                        base >= 1,
                        acc >= 0,
                ;
                acc = acc * base + v;
            },
        }
        i += 1;
    }
    assert(s@.take(s.len() as int) =~= s@);
    Some(acc)
}

/// The decimal number that `s` spells, if it fits the machine word.
pub open spec fn decimal(s: Seq<u8>) -> Option<usize> {
    match number(s, 10, usize::MAX as nat) {
        Some(v) => Some(v as usize),
        None => None,
    }
}

/// Reads a decimal number that fits the machine word.
pub fn parse_decimal(s: &[u8]) -> (r: Option<usize>)
    ensures
        r == decimal(s@),
{
    match parse_number(s, 10, usize::MAX as u64) {
        Some(v) => Some(v as usize),
        None => None,
    }
}

/// The hexadecimal number that `s` spells, with or without a leading `0x`.
pub open spec fn hexadecimal(s: Seq<u8>) -> Option<u64> {
    let digits = if s.len() >= 2 && s[0] == 48 && s[1] == 120 {
        s.skip(2)
    } else {
        s
    };
    match number(digits, 16, u64::MAX as nat) {
        Some(v) => Some(v as u64),
        None => None,
    }
}

/// Reads a hexadecimal number of at most 64 bits, with or without a leading `0x`.
pub fn parse_hexadecimal(s: &[u8]) -> (r: Option<u64>)
    ensures
        r == hexadecimal(s@),
{
    if s.len() >= 2 && s[0] == 48 && s[1] == 120 {
        let tail = copy_range(s, 2, s.len());
        parse_number(tail.as_slice(), 16, u64::MAX)
    } else {
        parse_number(s, 16, u64::MAX)
    }
}

} // verus!
