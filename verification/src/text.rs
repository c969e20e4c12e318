//! Verified text helpers: decimal numbers and separator splitting, used by the
//! retry- and schedule-string parsers.

use vstd::prelude::*;

verus! {

/// A decimal digit.
pub open spec fn is_digit_char(c: char) -> bool {
    48 <= c as u32 <= 57
}

/// Every character of `s` is a decimal digit.
pub open spec fn all_digits(s: Seq<char>) -> bool {
    forall|i: int| 0 <= i < s.len() ==> is_digit_char(#[trigger] s[i])
}

/// Numeric value of a digit string, most significant digit first.
pub open spec fn dec_value(s: Seq<char>) -> int
    decreases s.len(),
{
    if s.len() == 0 {
        0
    } else {
        dec_value(s.drop_last()) * 10 + (s.last() as u32 - 48)
    }
}

/// The canonical decimal rendering of `n` (no leading zeroes).
pub open spec fn dec_str(n: nat) -> Seq<char>
    decreases n,
{
    if n < 10 {
        seq![digit_char(n)]
    } else {
        dec_str(n / 10).push(digit_char(n % 10))
    }
}

/// The digit character for a value below ten.
pub open spec fn digit_char(d: nat) -> char {
    ((d + 48) as u8) as char
}

pub proof fn lemma_dec_value_nonneg(s: Seq<char>)
    requires
        all_digits(s),
    ensures
        dec_value(s) >= 0,
    decreases s.len(),
{
    if s.len() > 0 {
        assert(all_digits(s.drop_last())) by {
            assert(forall|i: int|
                0 <= i < s.len() - 1 ==> is_digit_char(#[trigger] s.drop_last()[i]));
        }
        lemma_dec_value_nonneg(s.drop_last());
    }
}

/// Extending a digit string on the right can only grow its value.
pub proof fn lemma_dec_value_prefix(s: Seq<char>, n: int)
    requires
        all_digits(s),
        0 <= n <= s.len(),
    ensures
        dec_value(s.subrange(0, n)) <= dec_value(s),
    decreases s.len() - n,
{
    if n < s.len() {
        lemma_dec_value_prefix(s, n + 1);
        let a = s.subrange(0, n);
        let b = s.subrange(0, n + 1);
        assert(b.drop_last() =~= a);
        lemma_dec_value_nonneg(a);
        assert(dec_value(b) == dec_value(a) * 10 + (b.last() as u32 - 48));
        assert(dec_value(a) <= dec_value(a) * 10) by {
            assert(dec_value(a) >= 0);
        }
    } else {
        assert(s.subrange(0, n) =~= s);
    }
}

/// Parses a string of decimal digits. Returns the value exactly when the
/// string is non-empty, all digits, and the value fits in a `u64`. Digits
/// only: a sign or any other character rejects the string.
pub fn parse_dec_u64(s: &str) -> (r: Option<u64>)
    ensures
        r is Some <==> (s@.len() > 0 && all_digits(s@) && dec_value(s@) <= u64::MAX),
        r is Some ==> r->0 == dec_value(s@),
{
    let len: usize = s.unicode_len();
    if len == 0 {
        return None;
    }
    let mut val: u64 = 0;
    let mut i: usize = 0;
    while i < len
        invariant
            0 <= i <= len,
            len == s@.len(),
            all_digits(s@.subrange(0, i as int)),
            val == dec_value(s@.subrange(0, i as int)),
        decreases len - i,
    {
        let c = s.get_char(i);
        let cv = c as u32;
        if cv < 48 || cv > 57 {
            assert(!is_digit_char(s@[i as int]));
            return None;
        }
        let d: u64 = (cv - 48) as u64;
        if val > (u64::MAX - d) / 10 {
            proof {
                let p = s@.subrange(0, i + 1);
                assert(p.drop_last() =~= s@.subrange(0, i as int));
                assert(all_digits(p));
                assert(dec_value(p) == val * 10 + d);
                assert(dec_value(p) > u64::MAX);
                if all_digits(s@) {
                    lemma_dec_value_prefix(s@, i + 1);
                }
            }
            return None;
        }
        proof {
            let p = s@.subrange(0, i + 1);
            assert(p.drop_last() =~= s@.subrange(0, i as int));
        }
        val = val * 10 + d;
        i = i + 1;
    }
    proof {
        assert(s@.subrange(0, len as int) =~= s@);
    }
    Some(val)
}

/// `dec_str` produces digits only.
pub proof fn lemma_dec_str_digits(n: nat)
    ensures
        all_digits(dec_str(n)),
        dec_str(n).len() >= 1,
    decreases n,
{
    if n >= 10 {
        lemma_dec_str_digits(n / 10);
        assert(dec_str(n) =~= dec_str(n / 10).push(digit_char(n % 10)));
        assert forall|i: int| 0 <= i < dec_str(n).len() implies is_digit_char(
            #[trigger] dec_str(n)[i],
        ) by {
            if i < dec_str(n / 10).len() {
                assert(dec_str(n)[i] == dec_str(n / 10)[i]);
            }
        }
    }
}

/// Printing then parsing a number gives the number back.
pub proof fn lemma_dec_round_trip(n: nat)
    ensures
        dec_value(dec_str(n)) == n,
    decreases n,
{
    if n < 10 {
        let s = dec_str(n);
        assert(s =~= seq![digit_char(n)]);
        assert(s.drop_last() =~= Seq::<char>::empty());
        assert(dec_value(s.drop_last()) == 0);
        assert(digit_char(n) as u32 == n + 48);
        assert(dec_value(s) == dec_value(s.drop_last()) * 10 + (s.last() as u32 - 48));
    } else {
        lemma_dec_round_trip(n / 10);
        let s = dec_str(n);
        assert(s.drop_last() =~= dec_str(n / 10));
        assert(s.last() == digit_char(n % 10));
        assert(digit_char(n % 10) as u32 == n % 10 + 48);
        assert(dec_value(s) == dec_value(s.drop_last()) * 10 + (s.last() as u32 - 48));
    }
}

/// Renders `n` in decimal, matching `dec_str`.
pub fn u64_to_string(n: u64) -> (r: String)
    ensures
        r@ == dec_str(n as nat),
    decreases n,
{
    let d = digit_str(n % 10);
    if n < 10 {
        proof {
            assert(dec_str(n as nat) =~= seq![digit_char(n as nat)]);
        }
        d.to_owned()
    } else {
        let prefix = u64_to_string(n / 10);
        let r = prefix.concat(d);
        proof {
            assert(r@ =~= dec_str((n / 10) as nat).push(digit_char((n % 10) as nat)));
        }
        r
    }
}

/// The views of a sequence of owned strings.
pub open spec fn views(parts: Seq<String>) -> Seq<Seq<char>> {
    parts.map_values(|p: String| p@)
}

/// Splitting on two separator characters, keeping empty fields, as Rust's
/// `str::split` with a two-character set does.
pub open spec fn split_seps(s: Seq<char>, c1: char, c2: char) -> Seq<Seq<char>>
    decreases s.len(),
{
    if s.len() == 0 {
        seq![Seq::<char>::empty()]
    } else if s[0] == c1 || s[0] == c2 {
        seq![Seq::<char>::empty()] + split_seps(s.drop_first(), c1, c2)
    } else {
        let rest = split_seps(s.drop_first(), c1, c2);
        seq![seq![s[0]] + rest[0]] + rest.drop_first()
    }
}

pub proof fn lemma_split_len(s: Seq<char>, c1: char, c2: char)
    ensures
        split_seps(s, c1, c2).len() >= 1,
    decreases s.len(),
{
    if s.len() > 0 {
        lemma_split_len(s.drop_first(), c1, c2);
    }
}

/// A separator-free string splits into itself alone.
pub proof fn lemma_split_no_sep(s: Seq<char>, c1: char, c2: char)
    requires
        forall|i: int| 0 <= i < s.len() ==> s[i] != c1 && #[trigger] s[i] != c2,
    ensures
        split_seps(s, c1, c2) =~~= seq![s],
    decreases s.len(),
{
    if s.len() == 0 {
        assert(split_seps(s, c1, c2) =~~= seq![s]);
    } else {
        lemma_split_no_sep(s.drop_first(), c1, c2);
        assert(seq![s[0]] + s.drop_first() =~= s);
    }
}

/// Splitting at the first separator: a separator-free prefix becomes the first
/// field and the rest splits on its own.
pub proof fn lemma_split_at_sep(a: Seq<char>, b: Seq<char>, sep: char, c1: char, c2: char)
    requires
        sep == c1 || sep == c2,
        forall|i: int| 0 <= i < a.len() ==> a[i] != c1 && #[trigger] a[i] != c2,
    ensures
        split_seps(a + seq![sep] + b, c1, c2) =~~= seq![a] + split_seps(b, c1, c2),
    decreases a.len(),
{
    let s = a + seq![sep] + b;
    if a.len() == 0 {
        assert(s =~= seq![sep] + b);
        assert(s[0] == sep);
        assert(s.drop_first() =~= b);
    } else {
        assert(s[0] == a[0]);
        assert(s.drop_first() =~= a.drop_first() + seq![sep] + b);
        lemma_split_at_sep(a.drop_first(), b, sep, c1, c2);
        let rest = split_seps(s.drop_first(), c1, c2);
        lemma_split_len(b, c1, c2);
        assert(rest[0] == a.drop_first());
        assert(seq![s[0]] + rest[0] =~= a);
    }
}

/// Splits `s` on the two separators, keeping empty fields.
pub fn split_two_seps(s: &str, c1: char, c2: char) -> (parts: Vec<String>)
    ensures
        views(parts@) =~~= split_seps(s@, c1, c2),
{
    let len: usize = s.unicode_len();
    let mut parts: Vec<String> = Vec::new();
    let mut start: usize = 0;
    let mut i: usize = 0;
    proof {
        assert(s@.subrange(0, len as int) =~= s@);
        assert(views(parts@) =~= Seq::<Seq<char>>::empty());
    }
    while i < len
        invariant
            0 <= start <= i <= len,
            len == s@.len(),
            forall|k: int|
                start <= k < i ==> s@[k] != c1 && #[trigger] s@[k] != c2,
            split_seps(s@, c1, c2) =~~= views(parts@) + split_seps(
                s@.subrange(start as int, len as int),
                c1,
                c2,
            ),
        decreases len - i,
    {
        let c = s.get_char(i);
        if c == c1 || c == c2 {
            let part = s.substring_char(start, i).to_owned();
            proof {
                let tail = s@.subrange(start as int, len as int);
                let a = s@.subrange(start as int, i as int);
                let b = s@.subrange(i + 1, len as int);
                assert(tail =~= a + seq![s@[i as int]] + b);
                lemma_split_at_sep(a, b, s@[i as int], c1, c2);
                assert(views(parts@.push(part)) =~~= views(parts@) + seq![a]);
            }
            parts.push(part);
            start = i + 1;
        }
        i = i + 1;
    }
    let last = s.substring_char(start, len).to_owned();
    proof {
        let tail = s@.subrange(start as int, len as int);
        lemma_split_no_sep(tail, c1, c2);
        assert(views(parts@.push(last)) =~~= views(parts@) + seq![tail]);
    }
    parts.push(last);
    parts
}

/// Joining fields with single spaces.
pub open spec fn join_space(parts: Seq<Seq<char>>) -> Seq<char>
    decreases parts.len(),
{
    if parts.len() == 0 {
        Seq::empty()
    } else if parts.len() == 1 {
        parts[0]
    } else {
        parts[0] + seq![' '] + join_space(parts.drop_first())
    }
}

pub proof fn lemma_join_push(parts: Seq<Seq<char>>, x: Seq<char>)
    requires
        parts.len() >= 1,
    ensures
        join_space(parts.push(x)) =~= join_space(parts) + seq![' '] + x,
    decreases parts.len(),
{
    let p = parts.push(x);
    if parts.len() == 1 {
        assert(p.drop_first() =~= seq![x]);
        assert(join_space(seq![x]) == x);
        assert(join_space(p) == p[0] + seq![' '] + join_space(p.drop_first()));
    } else {
        lemma_join_push(parts.drop_first(), x);
        assert(p.drop_first() =~= parts.drop_first().push(x));
        assert(join_space(p) == p[0] + seq![' '] + join_space(p.drop_first()));
        assert(join_space(parts) == parts[0] + seq![' '] + join_space(parts.drop_first()));
    }
}

/// Joins the parts with single spaces.
pub fn join_with_space(parts: &Vec<String>) -> (r: String)
    requires
        parts@.len() >= 1,
    ensures
        r@ == join_space(views(parts@)),
{
    let mut r: String = parts[0].clone();
    let mut i: usize = 1;
    proof {
        assert(views(parts@.subrange(0, 1)) =~= seq![parts@[0]@]);
    }
    while i < parts.len()
        invariant
            1 <= i <= parts@.len(),
            r@ == join_space(views(parts@.subrange(0, i as int))),
        decreases parts@.len() - i,
    {
        let withsep = r.concat(" ");
        proof {
            reveal_strlit(" ");
        }
        r = withsep.concat(parts[i].as_str());
        proof {
            let pre = views(parts@.subrange(0, i as int));
            lemma_join_push(pre, parts@[i as int]@);
            assert(views(parts@.subrange(0, i + 1)) =~= pre.push(parts@[i as int]@));
        }
        i = i + 1;
    }
    proof {
        assert(parts@.subrange(0, parts@.len() as int) =~= parts@);
    }
    r
}

/// The one-character string for a digit value.
fn digit_str(d: u64) -> (r: &'static str)
    requires
        d < 10,
    ensures
        r@ == seq![digit_char(d as nat)],
{
    proof {
        reveal_strlit("0");
        reveal_strlit("1");
        reveal_strlit("2");
        reveal_strlit("3");
        reveal_strlit("4");
        reveal_strlit("5");
        reveal_strlit("6");
        reveal_strlit("7");
        reveal_strlit("8");
        reveal_strlit("9");
    }
    let r = if d == 0 {
        "0"
    } else if d == 1 {
        "1"
    } else if d == 2 {
        "2"
    } else if d == 3 {
        "3"
    } else if d == 4 {
        "4"
    } else if d == 5 {
        "5"
    } else if d == 6 {
        "6"
    } else if d == 7 {
        "7"
    } else if d == 8 {
        "8"
    } else {
        "9"
    };
    proof {
        assert(r@ =~= seq![digit_char(d as nat)]);
    }
    r
}

} // verus!
