//! Character-level text utilities: the whitespace character class,
//! whitespace trimming, blank-line tests, and decimal rendering of
//! counters.  Everything here is verified against `Seq<char>` models.

use vstd::prelude::*;

verus! {

/// The Unicode `White_Space` characters, the class that surrounding
/// whitespace is trimmed from.
pub open spec fn is_space_char(c: char) -> bool {
    ||| c == ' '
    ||| c == '\t'
    ||| c == '\n'
    ||| c == '\u{0B}'
    ||| c == '\u{0C}'
    ||| c == '\r'
    ||| c == '\u{85}'
    ||| c == '\u{A0}'
    ||| c == '\u{1680}'
    ||| c == '\u{2000}'
    ||| c == '\u{2001}'
    ||| c == '\u{2002}'
    ||| c == '\u{2003}'
    ||| c == '\u{2004}'
    ||| c == '\u{2005}'
    ||| c == '\u{2006}'
    ||| c == '\u{2007}'
    ||| c == '\u{2008}'
    ||| c == '\u{2009}'
    ||| c == '\u{200A}'
    ||| c == '\u{2028}'
    ||| c == '\u{2029}'
    ||| c == '\u{202F}'
    ||| c == '\u{205F}'
    ||| c == '\u{3000}'
}

/// Decides membership in the whitespace class of [`is_space_char`].
pub fn is_space(c: char) -> (r: bool)
    ensures
        r == is_space_char(c),
{
    c == ' ' || c == '\t' || c == '\n' || c == '\u{0B}' || c == '\u{0C}' || c == '\r'
        || c == '\u{85}' || c == '\u{A0}' || c == '\u{1680}' || c == '\u{2000}' || c == '\u{2001}'
        || c == '\u{2002}' || c == '\u{2003}' || c == '\u{2004}' || c == '\u{2005}'
        || c == '\u{2006}' || c == '\u{2007}' || c == '\u{2008}' || c == '\u{2009}'
        || c == '\u{200A}' || c == '\u{2028}' || c == '\u{2029}' || c == '\u{202F}'
        || c == '\u{205F}' || c == '\u{3000}'
}

/// Connects the deep view of a vector of lines to the views of its
/// elements, so proofs can move between the two freely.
pub broadcast proof fn lemma_lines_deep_view(v: Vec<String>)
    ensures
        (#[trigger] v.deep_view()).len() == v@.len(),
        forall|k: int| 0 <= k < v@.len() ==> v.deep_view()[k] == v@[k]@,
{
    assert forall|k: int| 0 <= k < v@.len() implies v.deep_view()[k] == v@[k]@ by {
        assert(v.deep_view()[k] == v@[k].deep_view());
    }
}

/// The sequence with its leading whitespace removed.
pub open spec fn trim_start_spec(l: Seq<char>) -> Seq<char>
    decreases l.len(),
{
    if l.len() > 0 && is_space_char(l[0]) {
        trim_start_spec(l.drop_first())
    } else {
        l
    }
}

/// The sequence with its trailing whitespace removed.
pub open spec fn trim_end_spec(l: Seq<char>) -> Seq<char>
    decreases l.len(),
{
    if l.len() > 0 && is_space_char(l.last()) {
        trim_end_spec(l.drop_last())
    } else {
        l
    }
}

/// The sequence with whitespace removed from both ends.
pub open spec fn trim_spec(l: Seq<char>) -> Seq<char> {
    trim_end_spec(trim_start_spec(l))
}

/// A line is blank when every character is whitespace; an empty line
/// is blank too.
pub open spec fn is_blank_spec(l: Seq<char>) -> bool {
    forall|k: int| 0 <= k < l.len() ==> is_space_char(l[k])
}

/// Trimming from the front skips exactly the leading run of whitespace.
proof fn lemma_trim_start_skip(l: Seq<char>, a: int)
    requires
        0 <= a <= l.len(),
        forall|k: int| 0 <= k < a ==> is_space_char(l[k]),
        a == l.len() || !is_space_char(l[a]),
    ensures
        trim_start_spec(l) =~= l.skip(a),
    decreases a,
{
    if a == 0 {
        if l.len() > 0 && is_space_char(l[0]) {
            assert(false);
        }
    } else {
        let tail = l.drop_first();
        assert(tail =~= l.skip(1));
        lemma_trim_start_skip(tail, a - 1);
        assert(tail.skip(a - 1) =~= l.skip(a));
    }
}

/// Trimming from the back keeps exactly the prefix before the trailing
/// run of whitespace.
pub proof fn lemma_trim_end_take(l: Seq<char>, b: int)
    requires
        0 <= b <= l.len(),
        forall|k: int| b <= k < l.len() ==> is_space_char(l[k]),
        b == 0 || !is_space_char(l[b - 1]),
    ensures
        trim_end_spec(l) =~= l.take(b),
    decreases l.len(),
{
    if b == l.len() {
        if l.len() > 0 && is_space_char(l.last()) {
            assert(false);
        }
        assert(l.take(b) =~= l);
    } else {
        let head = l.drop_last();
        lemma_trim_end_take(head, b);
        assert(head.take(b) =~= l.take(b));
    }
}

/// Removes leading and trailing whitespace, as [`trim_spec`] describes.
pub fn trim(s: &str) -> (r: String)
    ensures
        r@ == trim_spec(s@),
{
    let n = s.unicode_len();
    let mut a: usize = 0;
    while a < n && is_space(s.get_char(a))
        invariant
            0 <= a <= n,
            n == s@.len(),
            forall|k: int| 0 <= k < a ==> is_space_char(s@[k]),
        decreases n - a,
    {
        a += 1;
    }
    proof {
        lemma_trim_start_skip(s@, a as int);
    }
    if a == n {
        proof {
            assert(trim_end_spec(Seq::<char>::empty()) =~= Seq::<char>::empty());
            assert(trim_spec(s@) =~= Seq::<char>::empty());
        }
        return String::new();
    }
    let mut b: usize = n;
    while b > a && is_space(s.get_char(b - 1))
        invariant
            a <= b <= n,
            n == s@.len(),
            a < n,
            !is_space_char(s@[a as int]),
            forall|k: int| b <= k < n ==> is_space_char(s@[k]),
        decreases b,
    {
        b -= 1;
    }
    let r = s.substring_char(a, b);
    proof {
        let suffix = s@.skip(a as int);
        lemma_trim_end_take(suffix, b - a);
        assert(suffix.take(b - a) =~= s@.subrange(a as int, b as int));
    }
    String::from_str(r)
}

/// Removes trailing whitespace, as [`trim_end_spec`] describes.
pub fn trim_end(s: &str) -> (r: String)
    ensures
        r@ == trim_end_spec(s@),
{
    let n = s.unicode_len();
    let mut b: usize = n;
    while b > 0 && is_space(s.get_char(b - 1))
        invariant
            0 <= b <= n,
            n == s@.len(),
            forall|k: int| b <= k < n ==> is_space_char(s@[k]),
        decreases b,
    {
        b -= 1;
    }
    proof {
        lemma_trim_end_take(s@, b as int);
    }
    String::from_str(s.substring_char(0, b))
}

/// Decides whether a line consists of whitespace only.
pub fn is_blank_line(s: &str) -> (r: bool)
    ensures
        r == is_blank_spec(s@),
{
    let n = s.unicode_len();
    let mut k: usize = 0;
    while k < n
        invariant
            0 <= k <= n,
            n == s@.len(),
            forall|j: int| 0 <= j < k ==> is_space_char(s@[j]),
        decreases n - k,
    {
        if !is_space(s.get_char(k)) {
            return false;
        }
        k += 1;
    }
    true
}

/// The numeral character for the decimal digit `d`.
pub open spec fn dec_digit_char(d: nat) -> char {
    if d == 0 {
        '0'
    } else if d == 1 {
        '1'
    } else if d == 2 {
        '2'
    } else if d == 3 {
        '3'
    } else if d == 4 {
        '4'
    } else if d == 5 {
        '5'
    } else if d == 6 {
        '6'
    } else if d == 7 {
        '7'
    } else if d == 8 {
        '8'
    } else {
        '9'
    }
}

/// The decimal numeral of `n`, most significant digit first, with no
/// leading zeros (zero itself is the single digit `0`).
pub open spec fn dec_digits(n: nat) -> Seq<char>
    decreases n,
    via dec_digits_decreases
{
    if n < 10 {
        seq![dec_digit_char(n)]
    } else {
        dec_digits(n / 10) + seq![dec_digit_char(n % 10)]
    }
}

#[via_fn]
proof fn dec_digits_decreases(n: nat) {
    if n >= 10 {
        assert(n / 10 < n) by (nonlinear_arith)
            requires
                n >= 10,
        ;
    }
}

/// The numeral string for the decimal digit `d`.
pub fn dec_digit_str(d: usize) -> (r: &'static str)
    requires
        d < 10,
    ensures
        r@ == seq![dec_digit_char(d as nat)],
{
    proof {
        reveal_strlit("0");
        reveal_strlit("1");
        reveal_strlit("2");
        reveal_strlit("3");
        reveal_strlit("4");
        reveal_strlit("5");
        reveal_strlit("6");
        reveal_strlit("7");
        reveal_strlit("8");
        reveal_strlit("9");
    }
    let r: &'static str = match d {
        0 => "0",
        1 => "1",
        2 => "2",
        3 => "3",
        4 => "4",
        5 => "5",
        6 => "6",
        7 => "7",
        8 => "8",
        _ => "9",
    };
    proof {
        assert(r@ =~= seq![dec_digit_char(d as nat)]);
    }
    r
}

/// Appends the decimal numeral of `n` to `out`.
pub fn push_dec(n: usize, out: &mut String)
    ensures
        final (out)@ == old(out)@ + dec_digits(n as nat),
    decreases n,
{
    if n >= 10 {
        proof {
            assert(n / 10 < n) by (nonlinear_arith)
                requires
                    n >= 10,
            ;
        }
        push_dec(n / 10, out);
    }
    let d = dec_digit_str(n % 10);
    out.append(d);
    proof {
        if n < 10 {
            assert(n % 10 == n);
            assert(final (out)@ =~= old(out)@ + dec_digits(n as nat));
        } else {
            assert(final (out)@ =~= old(out)@ + (dec_digits((n / 10) as nat) + seq![
                dec_digit_char((n % 10) as nat),
            ]));
            assert(final (out)@ =~= old(out)@ + dec_digits(n as nat));
        }
    }
}

/// Appends the decimal numeral of `n + 1` to `out`.  The successor is
/// rendered without ever being held in a machine word, so `n` may be
/// the largest representable value.
pub fn push_dec_succ(n: usize, out: &mut String)
    ensures
        final (out)@ == old(out)@ + dec_digits(n as nat + 1),
{
    if n < 9 {
        let d = dec_digit_str(n + 1);
        out.append(d);
        proof {
            assert(final (out)@ =~= old(out)@ + dec_digits(n as nat + 1));
        }
    } else {
        let nine = n % 10 == 9;
        let q: usize = if nine {
            n / 10 + 1
        } else {
            n / 10
        };
        let r: usize = if nine {
            0
        } else {
            n % 10 + 1
        };
        proof {
            vstd::arithmetic::div_mod::lemma_fundamental_div_mod(n as int, 10);
            assert(n as int + 1 == q as int * 10 + r as int);
            vstd::arithmetic::div_mod::lemma_fundamental_div_mod_converse(
                n as int + 1,
                10,
                q as int,
                r as int,
            );
        }
        push_dec(q, out);
        let d = dec_digit_str(r);
        out.append(d);
        proof {
            assert(dec_digits(n as nat + 1) == dec_digits(q as nat) + seq![
                dec_digit_char(r as nat),
            ]);
            assert(final (out)@ =~= old(out)@ + dec_digits(n as nat + 1));
        }
    }
}

/// The number of space characters in `s`.
pub open spec fn space_count(s: Seq<char>) -> nat
    decreases s.len(),
{
    if s.len() == 0 {
        0
    } else {
        space_count(s.drop_last()) + (if s.last() == ' ' {
            1nat
        } else {
            0nat
        })
    }
}

/// The number of space-separated pieces of `s`: one more than its
/// space count (the empty string counts as one piece).
pub open spec fn word_count(s: Seq<char>) -> nat {
    space_count(s) + 1
}

/// Counts the space characters of `s`.
pub fn count_spaces(s: &str) -> (c: usize)
    ensures
        c as nat == space_count(s@),
{
    let n = s.unicode_len();
    let mut c: usize = 0;
    let mut k: usize = 0;
    while k < n
        invariant
            0 <= k <= n,
            n == s@.len(),
            c <= k,
            c as nat == space_count(s@.take(k as int)),
        decreases n - k,
    {
        proof {
            assert(s@.take(k as int + 1).drop_last() =~= s@.take(k as int));
            assert(s@.take(k as int + 1).last() == s@[k as int]);
        }
        if s.get_char(k) == ' ' {
            c += 1;
        }
        k += 1;
    }
    proof {
        assert(s@.take(n as int) =~= s@);
    }
    c
}

} // verus!
