use vstd::prelude::*;
use vstd::string::*;

verus! {

pub open spec fn is_digit(c: char) -> bool {
    '0' <= c && c <= '9'
}

pub open spec fn all_digits(s: Seq<char>) -> bool {
    forall|i: int| 0 <= i < s.len() ==> is_digit(#[trigger] s[i])
}

/// The number that the decimal digits `s` spell, most significant first.
pub open spec fn digits_value(s: Seq<char>) -> int
    decreases s.len(),
{
    if s.len() == 0 {
        0
    } else {
        10 * digits_value(s.drop_last()) + ((s.last() as u32) as int - ('0' as u32) as int)
    }
}

/// The text after an optional leading sign.
pub open spec fn unsigned_part(s: Seq<char>) -> Seq<char> {
    if s.len() > 0 && (s[0] == '-' || s[0] == '+') {
        s.subrange(1, s.len() as int)
    } else {
        s
    }
}

/// The `i32` that `s` spells as decimal text: an optional `+` or `-`, then one or more
/// ASCII digits, with a value in range. Any other text spells none.
pub open spec fn parsed_i32(s: Seq<char>) -> Option<i32> {
    let body = unsigned_part(s);
    let v = if s.len() > 0 && s[0] == '-' {
        -digits_value(body)
    } else {
        digits_value(body)
    };
    if body.len() > 0 && all_digits(body) && i32::MIN <= v <= i32::MAX {
        Some(v as i32)
    } else {
        None
    }
}

/// The integer read from text by `Value::as_int`: what `s` spells, or 0 where it spells none.
pub open spec fn int_or_zero(s: Seq<char>) -> i32 {
    match parsed_i32(s) {
        Some(v) => v,
        None => 0,
    }
}

proof fn lemma_digits_prefix(s: Seq<char>, j: int)
    requires
        all_digits(s),
        0 <= j <= s.len(),
    ensures
        0 <= digits_value(s.subrange(0, j)) <= digits_value(s),
    decreases s.len(),
{
    if j < s.len() {
        let t = s.drop_last();
        assert(all_digits(t)) by {
            assert forall|i: int| 0 <= i < t.len() implies is_digit(#[trigger] t[i]) by {
                assert(t[i] == s[i]);
            }
        }
        lemma_digits_prefix(t, j);
        assert(t.subrange(0, j) =~= s.subrange(0, j));
        assert(is_digit(s[s.len() - 1]));
    } else {
        assert(s.subrange(0, j) =~= s);
        if s.len() > 0 {
            let t = s.drop_last();
            assert(all_digits(t)) by {
                assert forall|i: int| 0 <= i < t.len() implies is_digit(#[trigger] t[i]) by {
                    assert(t[i] == s[i]);
                }
            }
            lemma_digits_prefix(t, t.len() as int);
            assert(t.subrange(0, t.len() as int) =~= t);
            assert(is_digit(s[s.len() - 1]));
        }
    }
}

/// Reads `s` as a decimal `i32` the way Rust's `i32` parsing does.
pub fn parse_i32(s: &str) -> (r: Option<i32>)
    ensures
        r == parsed_i32(s@),
{
    let n = s.unicode_len();
    if n == 0 {
        return None;
    }
    let first = s.get_char(0);
    let start: usize = if first == '-' || first == '+' {
        1
    } else {
        0
    };
    let ghost body = unsigned_part(s@);
    proof {
        if start == 0 {
            assert(s@.subrange(0, n as int) =~= s@);
        }
    }
    if start == n {
        return None;
    }
    let mut acc: u64 = 0;
    let mut i: usize = start;
    while i < n
        invariant
            n == s@.len(),
            start <= i <= n,
            start == 0 || start == 1,
            body == s@.subrange(start as int, n as int),
            body == unsigned_part(s@),
            first == s@[0],
            start == 1 <==> (s@[0] == '-' || s@[0] == '+'),
            all_digits(s@.subrange(start as int, i as int)),
            acc == digits_value(s@.subrange(start as int, i as int)),
            acc <= 2147483648,
        decreases n - i,
    {
        let c = s.get_char(i);
        let ghost pre = s@.subrange(start as int, i as int);
        let ghost next_pre = s@.subrange(start as int, i + 1);
        if !('0' <= c && c <= '9') {
            proof {
                assert(body[i - start] == c);
                assert(!is_digit(body[i - start]));
            }
            return None;
        }
        let d = (c as u32 - '0' as u32) as u64;
        let next = acc * 10 + d;
        proof {
            assert(next_pre.drop_last() =~= pre);
            assert(next_pre.last() == c);
            assert(all_digits(next_pre)) by {
                assert forall|k: int| 0 <= k < next_pre.len() implies is_digit(
                    #[trigger] next_pre[k],
                ) by {
                    if k < pre.len() {
                        assert(next_pre[k] == pre[k]);
                    }
                }
            }
        }
        if next > 2147483648 {
            proof {
                if all_digits(body) {
                    lemma_digits_prefix(body, (i + 1 - start) as int);
                    assert(body.subrange(0, (i + 1 - start) as int) =~= next_pre);
                }
            }
            return None;
        }
        acc = next;
        i += 1;
    }
    proof {
        assert(s@.subrange(start as int, n as int) == body);
    }
    if first == '-' {
        Some((0 - (acc as i64)) as i32)
    } else if acc <= 2147483647 {
        Some(acc as i32)
    } else {
        None
    }
}

} // verus!
