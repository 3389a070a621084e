use vstd::prelude::*;

verus! {

/// Whether `needle` stands in `hay` at position `at`.
pub open spec fn occurs_at(hay: Seq<char>, needle: Seq<char>, at: int) -> bool {
    0 <= at && at + needle.len() <= hay.len() && hay.subrange(at, at + needle.len()) == needle
}

/// Whether `needle` stands somewhere in `hay`. The empty text stands in every
/// text.
pub open spec fn has_substring(hay: Seq<char>, needle: Seq<char>) -> bool {
    exists|at: int| occurs_at(hay, needle, at)
}

/// The character of a decimal digit.
pub open spec fn digit_char(d: int) -> char {
    if d == 0 {
        '0'
    } else if d == 1 {
        '1'
    } else if d == 2 {
        '2'
    } else if d == 3 {
        '3'
    } else if d == 4 {
        '4'
    } else if d == 5 {
        '5'
    } else if d == 6 {
        '6'
    } else if d == 7 {
        '7'
    } else if d == 8 {
        '8'
    } else {
        '9'
    }
}

/// The decimal digits of `n`, most significant first, without leading zeros.
pub open spec fn decimal_digits(n: nat) -> Seq<char>
    decreases n,
{
    if n < 10 {
        seq![digit_char(n as int)]
    } else {
        decimal_digits(n / 10).push(digit_char((n % 10) as int))
    }
}

/// The decimal rendering of `n`, with a minus sign before a negative number.
pub open spec fn decimal_text(n: int) -> Seq<char> {
    if n < 0 {
        seq!['-'] + decimal_digits((-n) as nat)
    } else {
        decimal_digits(n as nat)
    }
}

/// The characters of `s`, in order.
pub fn chars_of(s: &str) -> (v: Vec<char>)
    ensures
        v@ == s@,
{
    let n: usize = s.unicode_len();
    let mut v: Vec<char> = Vec::new();
    let mut i: usize = 0;
    while i < n
        invariant
            i <= n,
            n == s@.len(),
            v@ == s@.subrange(0, i as int),
        decreases n - i,
    {
        v.push(s.get_char(i));
        i += 1;
        assert(v@ =~= s@.subrange(0, i as int));
    }
    assert(v@ =~= s@);
    v
}

fn matches_at(hay: &Vec<char>, needle: &Vec<char>, at: usize) -> (r: bool)
    requires
        at + needle@.len() <= hay@.len(),
    ensures
        r == occurs_at(hay@, needle@, at as int),
{
    let mut k: usize = 0;
    while k < needle.len()
        invariant
            k <= needle.len(),
            at + needle.len() <= hay.len(),
            forall|j: int| 0 <= j < k ==> hay@[at + j] == needle@[j],
        decreases needle@.len() - k,
    {
        if hay[at + k] != needle[k] {
            assert(hay@.subrange(at as int, at + needle@.len())[k as int] == hay@[at + k]);
            return false;
        }
        k += 1;
    }
    assert(hay@.subrange(at as int, at + needle@.len()) =~= needle@);
    true
}

/// Whether `s` begins with `prefix`, character for character.
pub fn starts_with(s: &str, prefix: &str) -> (r: bool)
    ensures
        r == prefix@.is_prefix_of(s@),
{
    let hay = chars_of(s);
    let needle = chars_of(prefix);
    if needle.len() > hay.len() {
        return false;
    }
    matches_at(&hay, &needle, 0)
}

/// Whether `needle` stands somewhere in `hay`, character for character and
/// with regard to case.
pub fn contains(hay: &str, needle: &str) -> (r: bool)
    ensures
        r == has_substring(hay@, needle@),
{
    let h = chars_of(hay);
    let n = chars_of(needle);
    if n.len() > h.len() {
        return false;
    }
    if n.len() == 0 {
        assert(occurs_at(h@, n@, 0)) by {
            assert(h@.subrange(0, 0) =~= n@);
        }
        return true;
    }
    let last: usize = h.len() - n.len();
    let mut i: usize = 0;
    while i <= last
        invariant
            i <= last + 1,
            n.len() >= 1,
            last == h.len() - n.len(),
            h@ == hay@,
            n@ == needle@,
            forall|j: int| 0 <= j < i ==> !occurs_at(h@, n@, j),
        decreases last + 1 - i,
    {
        if matches_at(&h, &n, i) {
            return true;
        }
        i += 1;
    }
    false
}

/// What is left of `s` behind its first `count` characters.
pub fn skip_chars(s: &str, count: usize) -> (r: String)
    requires
        count <= s@.len(),
    ensures
        r@ == s@.skip(count as int),
{
    let n: usize = s.unicode_len();
    let rest = s.substring_char(count, n);
    String::from_str(rest)
}

fn digit_text(d: u64) -> (r: &'static str)
    requires
        d < 10,
    ensures
        r@ == seq![digit_char(d as int)],
{
    proof {
        reveal_strlit("0");
        reveal_strlit("1");
        reveal_strlit("2");
        reveal_strlit("3");
        reveal_strlit("4");
        reveal_strlit("5");
        reveal_strlit("6");
        reveal_strlit("7");
        reveal_strlit("8");
        reveal_strlit("9");
    }
    let r = if d == 0 {
        "0"
    } else if d == 1 {
        "1"
    } else if d == 2 {
        "2"
    } else if d == 3 {
        "3"
    } else if d == 4 {
        "4"
    } else if d == 5 {
        "5"
    } else if d == 6 {
        "6"
    } else if d == 7 {
        "7"
    } else if d == 8 {
        "8"
    } else {
        "9"
    };
    assert(r@ =~= seq![digit_char(d as int)]);
    r
}

fn digits(n: u64) -> (r: String)
    ensures
        r@ == decimal_digits(n as nat),
{
    let mut out = String::from_str(digit_text(n % 10));
    let mut rest: u64 = n / 10;
    while rest > 0
        invariant
            decimal_digits(n as nat) == if rest == 0 {
                out@
            } else {
                decimal_digits(rest as nat) + out@
            },
        decreases rest,
    {
        let ghost before = out@;
        let ghost head = digit_char((rest % 10) as int);
        out = String::from_str(digit_text(rest % 10)).concat(out.as_str());
        assert(out@ =~= seq![head] + before);
        proof {
            if rest >= 10 {
                assert(decimal_digits((rest / 10) as nat).push(head) + before =~= decimal_digits(
                    (rest / 10) as nat,
                ) + out@);
            }
        }
        rest = rest / 10;
    }
    out
}

/// The decimal rendering of `n`.
pub fn decimal(n: i64) -> (r: String)
    ensures
        r@ == decimal_text(n as int),
{
    if n < 0 {
        let magnitude: u64 = ((-(n + 1)) as u64) + 1;
        let body = digits(magnitude);
        proof {
            reveal_strlit("-");
            assert("-"@ =~= seq!['-']);
        }
        String::from_str("-").concat(body.as_str())
    } else {
        digits(n as u64)
    }
}

} // verus!
