use vstd::prelude::*;

verus! {

/// Position of the first `.` at or after `from`, or the length when none.
pub open spec fn next_dot(s: Seq<u8>, from: int) -> int
    decreases s.len() - from,
{
    if from < 0 || from >= s.len() {
        s.len() as int
    } else if s[from] == 46u8 {
        from
    } else {
        next_dot(s, from + 1)
    }
}

/// The second `.`-separated field of `s`, when `s` holds a `.`.
pub open spec fn second_field(s: Seq<u8>) -> Option<Seq<u8>> {
    let i = next_dot(s, 0);
    if i >= s.len() {
        None
    } else {
        Some(s.subrange(i + 1, next_dot(s, i + 1)))
    }
}

pub open spec fn is_digit(b: u8) -> bool {
    48 <= b <= 57
}

/// Value of a string of decimal digits.
pub open spec fn digits_value(s: Seq<u8>) -> nat
    decreases s.len(),
{
    if s.len() == 0 {
        0
    } else {
        digits_value(s.drop_last()) * 10 + (s.last() - 48) as nat
    }
}

/// The digits of an unsigned decimal numeral: an optional `+`, then at least
/// one digit and nothing else.
pub open spec fn numeral_digits(f: Seq<u8>) -> Option<Seq<u8>> {
    let d = strip_plus(f);
    if d.len() > 0 && all_digits(d) {
        Some(d)
    } else {
        None
    }
}

/// `f` without one leading `+`.
pub open spec fn strip_plus(f: Seq<u8>) -> Seq<u8> {
    if f.len() > 0 && f[0] == 43u8 {
        f.subrange(1, f.len() as int)
    } else {
        f
    }
}

pub open spec fn all_digits(d: Seq<u8>) -> bool {
    forall|k: int| 0 <= k < d.len() ==> is_digit(#[trigger] d[k])
}

/// The year that a dump's file name encodes: its second `.`-separated field
/// is a `yyyymmdd` numeral that fits in 64 bits.
pub open spec fn file_name_year(s: Seq<u8>) -> Option<nat> {
    match second_field(s) {
        None => None,
        Some(f) => match numeral_digits(f) {
            None => None,
            Some(d) => if digits_value(d) <= u64::MAX {
                Some(digits_value(d) / 10000)
            } else {
                None
            },
        },
    }
}

fn find_dot(s: &[u8], from: usize) -> (i: usize)
    requires
        from <= s@.len(),
    ensures
        i == next_dot(s@, from as int),
        from <= i <= s@.len(),
{
    let mut i = from;
    while i < s.len() && s[i] != 46u8
        invariant
            from <= i <= s@.len(),
            next_dot(s@, from as int) == next_dot(s@, i as int),
        decreases s.len() - i,
    {
        i = i + 1;
    }
    i
}

/// Year from the file name of a dump (as bytes); `None` when the name has no
/// second field, the field is no numeral, or it does not fit in 64 bits.
pub fn year_of_file_name(name: &[u8]) -> (r: Option<u64>)
    ensures
        r matches Some(y) ==> file_name_year(name@) == Some(y as nat),
        r is None ==> file_name_year(name@) is None,
{
    let i = find_dot(name, 0);
    if i >= name.len() {
        return None;
    }
    let j = find_dot(name, i + 1);
    let ghost f = name@.subrange(i + 1, j as int);
    let mut start = i + 1;
    if start < j && name[start] == 43u8 {
        start = start + 1;
    }
    let ghost d = name@.subrange(start as int, j as int);
    proof {
        assert(second_field(name@) == Some(f));
        if f.len() > 0 && f[0] == 43u8 {
            assert(f.subrange(1, f.len() as int) =~= d);
        } else {
            assert(f =~= d);
        }
    }
    if start >= j {
        return None;
    }
    let mut value: u64 = 0;
    let mut k = start;
    while k < j
        invariant
            start <= k <= j,
            j <= name@.len(),
            d == name@.subrange(start as int, j as int),
            second_field(name@) == Some(f),
            f.len() > 0 && f[0] == 43u8 ==> f.subrange(1, f.len() as int) == d,
            !(f.len() > 0 && f[0] == 43u8) ==> f == d,
            value == digits_value(d.subrange(0, k - start)),
            forall|m: int| 0 <= m < k - start ==> is_digit(#[trigger] d[m]),
        decreases j - k,
    {
        let b = name[k];
        assert(d[k - start] == b);
        if b < 48u8 || b > 57u8 {
            assert(!is_digit(d[k - start]));
            assert(strip_plus(f) == d);
            assert(!all_digits(d));
            assert(numeral_digits(f) is None);
            return None;
        }
        assert(d.subrange(0, k + 1 - start).drop_last() =~= d.subrange(0, k - start));
        let next = match value.checked_mul(10) {
            Some(t) => t.checked_add((b - 48u8) as u64),
            None => None,
        };
        match next {
            Some(v) => {
                value = v;
            },
            None => {
                proof {
                    assert(digits_value(d.subrange(0, k + 1 - start)) > u64::MAX);
                    if forall|m: int| 0 <= m < d.len() ==> is_digit(#[trigger] d[m]) {
                        lemma_digits_value_prefix(d, k + 1 - start, d.len() as int);
                        assert(d.subrange(0, d.len() as int) =~= d);
                        assert(numeral_digits(f) == Some(d));
                    } else {
                        assert(strip_plus(f) == d);
                        assert(!all_digits(d));
                        assert(numeral_digits(f) is None);
                    }
                }
                return None;
            },
        }
        k = k + 1;
    }
    assert(d.subrange(0, j - start) =~= d);
    Some(value / 10000)
}

/// A longer prefix of digits never has a smaller value.
proof fn lemma_digits_value_prefix(d: Seq<u8>, a: int, b: int)
    requires
        0 <= a <= b <= d.len(),
        forall|m: int| 0 <= m < b ==> is_digit(#[trigger] d[m]),
    ensures
        digits_value(d.subrange(0, a)) <= digits_value(d.subrange(0, b)),
    decreases b - a,
{
    if a < b {
        lemma_digits_value_prefix(d, a, b - 1);
        assert(d.subrange(0, b).drop_last() =~= d.subrange(0, b - 1));
    }
}

} // verus!
