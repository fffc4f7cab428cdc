//! The link index parser: reads the sequential numeric index off a
//! relative link of the form `<prefix>=<index>`, e.g. `level?x=12`.

use vstd::prelude::*;
use vstd::string::StrSliceExecFns;

verus! {

/// Why a relative link failed to yield an index.
#[derive(Debug, Clone, Copy, PartialEq, Eq, Structural)]
pub enum LinkError {
    /// Splitting the link on `=` did not yield exactly two parts.
    Format,
    /// The part after `=` is not a non-negative integer that fits in `usize`.
    Numeric,
}

/// `c` is a decimal digit.
pub open spec fn is_digit(c: char) -> bool {
    '0' as u32 <= c as u32 && c as u32 <= '9' as u32
}

/// The value of one decimal digit.
pub open spec fn digit_val(c: char) -> nat {
    (c as u32 - '0' as u32) as nat
}

/// Every character of `s` is a decimal digit.
pub open spec fn all_digits(s: Seq<char>) -> bool {
    forall|i: int| 0 <= i < s.len() ==> is_digit(#[trigger] s[i])
}

/// The number denoted by a sequence of decimal digits, most significant first.
pub open spec fn digits_val(s: Seq<char>) -> nat
    decreases s.len(),
{
    if s.len() == 0 {
        0
    } else {
        digits_val(s.drop_last()) * 10 + digit_val(s.last())
    }
}

/// `p` is the position of the only `=` in `s`.
pub open spec fn lone_eq_at(s: Seq<char>, p: int) -> bool {
    &&& 0 <= p < s.len()
    &&& s[p] == '='
    &&& forall|q: int| 0 <= q < s.len() && q != p ==> s[q] != '='
}

/// Splitting `s` on `=` yields exactly two parts.
pub open spec fn splits_in_two(s: Seq<char>) -> bool {
    exists|p: int| lone_eq_at(s, p)
}

/// The position of the only `=` of `s` (meaningful when `splits_in_two(s)`).
pub open spec fn eq_pos(s: Seq<char>) -> int {
    choose|p: int| lone_eq_at(s, p)
}

/// The part of `s` after its only `=` (meaningful when `splits_in_two(s)`).
pub open spec fn index_part(s: Seq<char>) -> Seq<char> {
    s.subrange(eq_pos(s) + 1, s.len() as int)
}

/// `s` denotes an index: non-empty, all digits, and within `usize` range.
pub open spec fn valid_index(s: Seq<char>) -> bool {
    &&& s.len() > 0
    &&& all_digits(s)
    &&& digits_val(s) <= usize::MAX
}

/// A digit string is worth at least any of its prefixes.
proof fn lemma_digits_val_grows(s: Seq<char>, i: int)
    requires
        0 <= i <= s.len(),
    ensures
        digits_val(s.take(i)) <= digits_val(s),
    decreases s.len() - i,
{
    if i == s.len() {
        assert(s.take(i) =~= s);
    } else {
        lemma_digits_val_grows(s, i + 1);
        assert(s.take(i + 1).drop_last() =~= s.take(i));
        assert(s.take(i + 1).last() == s[i]);
        let a = digits_val(s.take(i));
        assert(a <= a * 10) by (nonlinear_arith);
    }
}

/// Parses the trailing index off `href`, a relative link expected to hold
/// exactly one `=` followed by a decimal index. The leading part (whose
/// expected name the caller passes as `thing`) is not inspected.
#[allow(unused_variables)]
pub fn parse_from_relative_link(thing: &str, href: &str) -> (r: Result<usize, LinkError>)
    ensures
        match r {
            Ok(n) => splits_in_two(href@) && valid_index(index_part(href@))
                && n == digits_val(index_part(href@)),
            Err(LinkError::Format) => !splits_in_two(href@),
            Err(LinkError::Numeric) => splits_in_two(href@) && !valid_index(index_part(href@)),
        },
{
    let n = href.unicode_len();
    let mut pos: Option<usize> = None;
    let mut i: usize = 0;
    while i < n
        invariant
            n == href@.len(),
            i <= n,
            match pos {
                None => forall|q: int| 0 <= q < i ==> href@[q] != '=',
                Some(p) => p < i && href@[p as int] == '='
                    && forall|q: int| 0 <= q < i && q != p ==> href@[q] != '=',
            },
        decreases n - i,
    {
        if href.get_char(i) == '=' {
            match pos {
                None => {
                    pos = Some(i);
                }
                Some(p) => {
                    proof {
                        assert forall|pp: int| !lone_eq_at(href@, pp) by {
                            if lone_eq_at(href@, pp) {
                                if pp == p as int {
                                    assert(href@[i as int] != '=');
                                } else {
                                    assert(href@[p as int] != '=');
                                }
                            }
                        }
                    }
                    return Err(LinkError::Format);
                }
            }
        }
        i = i + 1;
    }
    let p = match pos {
        Some(p) => p,
        None => {
            proof {
                assert forall|pp: int| !lone_eq_at(href@, pp) by {
                    if lone_eq_at(href@, pp) {
                        assert(href@[pp] != '=');
                    }
                }
            }
            return Err(LinkError::Format);
        }
    };
    proof {
        assert(lone_eq_at(href@, p as int));
        assert(splits_in_two(href@));
        assert(lone_eq_at(href@, eq_pos(href@)));
        if eq_pos(href@) != p as int {
            assert(href@[p as int] != '=');
        }
        assert(eq_pos(href@) == p as int);
    }
    if p + 1 == n {
        proof {
            assert(index_part(href@).len() == 0);
        }
        return Err(LinkError::Numeric);
    }
    let mut acc: usize = 0;
    let mut j: usize = p + 1;
    while j < n
        invariant
            n == href@.len(),
            p + 1 <= j <= n,
            p + 1 < n,
            splits_in_two(href@),
            eq_pos(href@) == p as int,
            forall|q: int| p + 1 <= q < j ==> is_digit(#[trigger] href@[q]),
            acc == digits_val(href@.subrange(p as int + 1, j as int)),
        decreases n - j,
    {
        let c = href.get_char(j);
        let u: u32 = c as u32;
        let zero: u32 = '0' as u32;
        let nine: u32 = '9' as u32;
        if u < zero || u > nine {
            proof {
                let ip = index_part(href@);
                assert(ip =~= href@.subrange(p as int + 1, n as int));
                assert(ip[j - p - 1] == href@[j as int]);
                assert(!is_digit(href@[j as int]));
                assert(!all_digits(ip));
            }
            return Err(LinkError::Numeric);
        }
        let d: usize = (u - zero) as usize;
        proof {
            assert(is_digit(href@[j as int]));
            assert(d == digit_val(href@[j as int]));
            assert(href@.subrange(p as int + 1, j as int + 1).drop_last()
                =~= href@.subrange(p as int + 1, j as int));
            assert(href@.subrange(p as int + 1, j as int + 1).last() == href@[j as int]);
        }
        let next = match acc.checked_mul(10) {
            Some(m) => m.checked_add(d),
            None => None,
        };
        match next {
            Some(v) => {
                acc = v;
            }
            None => {
                proof {
                    let ip = index_part(href@);
                    assert(ip =~= href@.subrange(p as int + 1, n as int));
                    assert(digits_val(href@.subrange(p as int + 1, j as int + 1))
                        == acc * 10 + digit_val(href@[j as int]));
                    assert(digits_val(href@.subrange(p as int + 1, j as int + 1)) > usize::MAX);
                    if all_digits(ip) {
                        assert(ip.take(j - p) =~= href@.subrange(p as int + 1, j as int + 1));
                        lemma_digits_val_grows(ip, j - p);
                        assert(digits_val(ip) > usize::MAX);
                    }
                    assert(!valid_index(ip));
                }
                return Err(LinkError::Numeric);
            }
        }
        j = j + 1;
    }
    proof {
        let ip = index_part(href@);
        assert(ip =~= href@.subrange(p as int + 1, n as int));
        assert forall|q: int| 0 <= q < ip.len() implies is_digit(#[trigger] ip[q]) by {
            assert(ip[q] == href@[p + 1 + q]);
        }
        assert(ip.len() > 0);
        assert(acc == digits_val(ip));
        assert(valid_index(ip));
    }
    Ok(acc)
}

} // verus!

