//! Tokenizer primitives shared by the interpreter engines: whitespace
//! trimming, splitting a statement into space-separated words, and parsing
//! decimal literals.

use vstd::prelude::*;
use vstd::string::*;

verus! {

/// Characters treated as surrounding whitespace by the statement reader.
pub open spec fn is_space(c: char) -> bool {
    c == ' ' || c == '\t' || c == '\n' || c == '\r'
}

/// ASCII decimal digit.
pub open spec fn is_digit(c: char) -> bool {
    48 <= c as u32 <= 57
}

/// Numeric value of a single digit; zero for anything else.
pub open spec fn digit_val(c: char) -> nat {
    if is_digit(c) {
        (c as u32 - 48) as nat
    } else {
        0
    }
}

/// Every character of the word is an ASCII decimal digit.
pub open spec fn all_digits(s: Seq<char>) -> bool {
    forall|i: int| 0 <= i < s.len() ==> is_digit(s[i])
}

/// Value of a digit string, most significant digit first.
pub open spec fn digits_value(s: Seq<char>) -> nat
    decreases s.len(),
{
    if s.len() == 0 {
        0
    } else {
        digits_value(s.drop_last()) * 10 + digit_val(s.last())
    }
}

/// The word remaining after leading whitespace is removed.
pub open spec fn trim_left_spec(s: Seq<char>) -> Seq<char>
    decreases s.len(),
{
    if s.len() > 0 && is_space(s[0]) {
        trim_left_spec(s.drop_first())
    } else {
        s
    }
}

/// The word remaining after trailing whitespace is removed.
pub open spec fn trim_right_spec(s: Seq<char>) -> Seq<char>
    decreases s.len(),
{
    if s.len() > 0 && is_space(s.last()) {
        trim_right_spec(s.drop_last())
    } else {
        s
    }
}

/// The word remaining after surrounding whitespace is removed.
pub open spec fn trim_spec(s: Seq<char>) -> Seq<char> {
    trim_right_spec(trim_left_spec(s))
}

/// Splitting on single spaces, with an accumulator for the current word.
/// Mirrors the behaviour of splitting on `' '`: the empty string yields one
/// empty word, and each space ends the word before it.
pub open spec fn split_acc(s: Seq<char>, cur: Seq<char>) -> Seq<Seq<char>>
    decreases s.len(),
{
    if s.len() == 0 {
        seq![cur]
    } else if s[0] == ' ' {
        seq![cur] + split_acc(s.drop_first(), Seq::empty())
    } else {
        split_acc(s.drop_first(), cur.push(s[0]))
    }
}

/// The words of a line, split on single spaces. Always non-empty.
pub open spec fn split_spaces(s: Seq<char>) -> Seq<Seq<char>> {
    split_acc(s, Seq::empty())
}

/// The word sequence a statement is tokenized into: the line is trimmed,
/// split on single spaces, and each word is trimmed again.
pub open spec fn words_of(s: Seq<char>) -> Seq<Seq<char>> {
    split_spaces(trim_spec(s)).map_values(|w: Seq<char>| trim_spec(w))
}

proof fn lemma_trim_left_at(s: Seq<char>, a: int)
    requires
        0 <= a <= s.len(),
        forall|j: int| 0 <= j < a ==> is_space(s[j]),
        a < s.len() ==> !is_space(s[a]),
    ensures
        trim_left_spec(s) == s.skip(a),
    decreases a,
{
    if a == 0 {
        assert(s.skip(0) =~= s);
    } else {
        lemma_trim_left_at(s.drop_first(), a - 1);
        assert(s.drop_first().skip(a - 1) =~= s.skip(a));
    }
}

proof fn lemma_trim_right_at(s: Seq<char>, b: int)
    requires
        0 <= b <= s.len(),
        forall|j: int| b <= j < s.len() ==> is_space(s[j]),
        b > 0 ==> !is_space(s[b - 1]),
    ensures
        trim_right_spec(s) == s.take(b),
    decreases s.len() - b,
{
    if b == s.len() {
        assert(s.take(b) =~= s);
    } else {
        lemma_trim_right_at(s.drop_last(), b);
        assert(s.drop_last().take(b) =~= s.take(b));
    }
}

proof fn lemma_split_acc_word(s: Seq<char>, cur: Seq<char>, k: int)
    requires
        0 <= k <= s.len(),
        forall|j: int| 0 <= j < k ==> s[j] != ' ',
    ensures
        k == s.len() ==> split_acc(s, cur) == seq![cur + s],
        k < s.len() && s[k] == ' ' ==> split_acc(s, cur) == seq![cur + s.take(k)] + split_acc(
            s.skip(k + 1),
            Seq::empty(),
        ),
    decreases k,
{
    if k == 0 {
        if s.len() == 0 {
            assert(cur + s =~= cur);
        } else if s[0] == ' ' {
            assert(cur + s.take(0) =~= cur);
            assert(s.skip(1) =~= s.drop_first());
        }
    } else {
        lemma_split_acc_word(s.drop_first(), cur.push(s[0]), k - 1);
        if k == s.len() {
            assert(cur.push(s[0]) + s.drop_first() =~= cur + s);
        } else if s[k] == ' ' {
            assert(cur.push(s[0]) + s.drop_first().take(k - 1) =~= cur + s.take(k));
            assert(s.drop_first().skip(k) =~= s.skip(k + 1));
        }
    }
}

proof fn lemma_digits_value_prefix(s: Seq<char>, k: int)
    requires
        0 <= k <= s.len(),
    ensures
        digits_value(s.take(k)) <= digits_value(s),
    decreases s.len() - k,
{
    if k < s.len() {
        assert(s.take(k + 1).drop_last() =~= s.take(k));
        assert(digits_value(s.take(k + 1)) == digits_value(s.take(k)) * 10 + digit_val(
            s.take(k + 1).last(),
        ));
        lemma_digits_value_prefix(s, k + 1);
    } else {
        assert(s.take(k) =~= s);
    }
}

/// Whether a character counts as surrounding whitespace.
pub fn is_space_char(c: char) -> (r: bool)
    ensures
        r == is_space(c),
{
    c == ' ' || c == '\t' || c == '\n' || c == '\r'
}

/// Whether a character is an ASCII decimal digit.
pub fn is_digit_char(c: char) -> (r: bool)
    ensures
        r == is_digit(c),
{
    let cu = c as u32;
    48 <= cu && cu <= 57
}

/// Character-for-character equality of two string slices.
pub fn str_eq(a: &str, b: &str) -> (r: bool)
    ensures
        r == (a@ == b@),
{
    let n = a.unicode_len();
    if n != b.unicode_len() {
        return false;
    }
    let mut i: usize = 0;
    while i < n
        invariant
            n == a@.len(),
            n == b@.len(),
            0 <= i <= n,
            forall|j: int| 0 <= j < i ==> a@[j] == b@[j],
        decreases n - i,
    {
        if a.get_char(i) != b.get_char(i) {
            return false;
        }
        i += 1;
    }
    proof {
        assert(a@ =~= b@);
    }
    true
}

/// Remove surrounding whitespace, as the statement reader does.
pub fn trim_str(s: &str) -> (r: String)
    ensures
        r@ == trim_spec(s@),
{
    let n = s.unicode_len();
    let mut a: usize = 0;
    while a < n && is_space_char(s.get_char(a))
        invariant
            0 <= a <= n,
            n == s@.len(),
            forall|j: int| 0 <= j < a ==> is_space(s@[j]),
        decreases n - a,
    {
        a += 1;
    }
    let mut b: usize = n;
    while b > a && is_space_char(s.get_char(b - 1))
        invariant
            a <= b <= n,
            n == s@.len(),
            forall|j: int| 0 <= j < a ==> is_space(s@[j]),
            a < n ==> !is_space(s@[a as int]),
            forall|j: int| b <= j < n ==> is_space(s@[j]),
        decreases b,
    {
        b -= 1;
    }
    proof {
        lemma_trim_left_at(s@, a as int);
        lemma_trim_right_at(s@.skip(a as int), b - a);
        assert(s@.skip(a as int).take(b - a) =~= s@.subrange(a as int, b as int));
    }
    s.substring_char(a, b).to_owned()
}

/// Split a line into its space-separated words.
pub fn split_words(s: &str) -> (words: Vec<String>)
    ensures
        words.deep_view() == split_spaces(s@),
{
    let n = s.unicode_len();
    let mut words: Vec<String> = Vec::new();
    let mut start: usize = 0;
    let mut i: usize = 0;
    proof {
        assert(s@.skip(0) =~= s@);
        assert(words.deep_view() + split_acc(s@, Seq::empty()) =~~= split_spaces(s@));
    }
    while i < n
        invariant
            0 <= start <= i <= n,
            n == s@.len(),
            forall|j: int| start <= j < i ==> s@[j] != ' ',
            words.deep_view() + split_acc(s@.skip(start as int), Seq::empty()) == split_spaces(s@),
        decreases n - i,
    {
        if s.get_char(i) == ' ' {
            let ghost dv0 = words.deep_view();
            let ghost rem = s@.skip(start as int);
            let w = s.substring_char(start, i).to_owned();
            words.push(w);
            proof {
                lemma_split_acc_word(rem, Seq::empty(), i - start);
                assert(rem[i - start] == s@[i as int]);
                assert(Seq::empty() + rem.take(i - start) =~= s@.subrange(start as int, i as int));
                assert(rem.skip(i - start + 1) =~= s@.skip(i as int + 1));
                assert(words.deep_view() =~~= dv0.push(w@));
                assert(words.deep_view() + split_acc(s@.skip(i as int + 1), Seq::empty()) =~~= dv0
                    + split_acc(rem, Seq::empty()));
            }
            start = i + 1;
        }
        i += 1;
    }
    let ghost dv0 = words.deep_view();
    let ghost rem = s@.skip(start as int);
    let w = s.substring_char(start, n).to_owned();
    words.push(w);
    proof {
        lemma_split_acc_word(rem, Seq::empty(), n - start);
        assert(Seq::empty() + rem =~= s@.subrange(start as int, n as int));
        assert(words.deep_view() =~~= dv0.push(w@));
        assert(words.deep_view() =~~= split_spaces(s@));
    }
    words
}

/// Tokenize a statement: trim the line, split it on spaces, and trim each
/// word.
pub fn tokenize(s: &str) -> (words: Vec<String>)
    ensures
        words.deep_view() == words_of(s@),
{
    let line = trim_str(s);
    let raw = split_words(line.as_str());
    let mut words: Vec<String> = Vec::new();
    let mut i: usize = 0;
    while i < raw.len()
        invariant
            0 <= i <= raw.len(),
            raw.deep_view() == split_spaces(trim_spec(s@)),
            words.deep_view() =~~= raw.deep_view().take(i as int).map_values(
                |w: Seq<char>| trim_spec(w),
            ),
        decreases raw.len() - i,
    {
        let ghost dv0 = words.deep_view();
        let w = trim_str(raw[i].as_str());
        words.push(w);
        proof {
            assert(raw.deep_view().take(i as int + 1).drop_last() =~= raw.deep_view().take(
                i as int,
            ));
            assert(words.deep_view() =~~= dv0.push(w@));
            assert(words.deep_view() =~~= raw.deep_view().take(i as int + 1).map_values(
                |w: Seq<char>| trim_spec(w),
            ));
        }
        i += 1;
    }
    proof {
        assert(raw.deep_view().take(raw.len() as int) =~= raw.deep_view());
        assert(words.deep_view() =~~= words_of(s@));
    }
    words
}

/// A decimal integer literal: an optional sign followed by at least one
/// digit.
pub open spec fn is_int_literal(s: Seq<char>) -> bool {
    if s.len() == 0 {
        false
    } else if s[0] == '-' || s[0] == '+' {
        s.len() > 1 && all_digits(s.skip(1))
    } else {
        all_digits(s)
    }
}

/// The mathematical value of a signed decimal literal.
pub open spec fn int_literal_value(s: Seq<char>) -> int {
    if s.len() > 0 && s[0] == '-' {
        -(digits_value(s.skip(1)) as int)
    } else if s.len() > 0 && s[0] == '+' {
        digits_value(s.skip(1)) as int
    } else {
        digits_value(s) as int
    }
}

/// Parse a word as a signed decimal literal. Returns the value exactly when
/// the word is an optionally signed digit string whose value fits in `isize`.
pub fn parse_isize(s: &str) -> (r: Option<isize>)
    ensures
        r == (if is_int_literal(s@) && isize::MIN <= int_literal_value(s@) <= isize::MAX {
            Some(int_literal_value(s@) as isize)
        } else {
            None::<isize>
        }),
{
    let n = s.unicode_len();
    if n == 0 {
        return None;
    }
    let c0 = s.get_char(0);
    let neg = c0 == '-';
    let signed = neg || c0 == '+';
    let start: usize = if signed {
        1
    } else {
        0
    };
    if signed && n == 1 {
        return None;
    }
    let ghost digs = s@.skip(start as int);
    let lim: usize = if neg {
        (isize::MAX as usize) + 1
    } else {
        isize::MAX as usize
    };
    let mut v: usize = 0;
    let mut i: usize = start;
    proof {
        assert(s@.subrange(start as int, start as int) =~= Seq::<char>::empty());
    }
    while i < n
        invariant
            start <= i <= n,
            n == s@.len(),
            n >= 1,
            start == (if signed {
                1int
            } else {
                0int
            }),
            signed ==> n >= 2,
            neg == (s@[0] == '-'),
            signed == (s@[0] == '-' || s@[0] == '+'),
            digs == s@.skip(start as int),
            lim == (if neg {
                isize::MAX + 1
            } else {
                isize::MAX as int
            }),
            forall|j: int| start <= j < i ==> is_digit(s@[j]),
            v == digits_value(s@.subrange(start as int, i as int)),
            v <= lim,
        decreases n - i,
    {
        let c = s.get_char(i);
        if !is_digit_char(c) {
            proof {
                assert(digs[i - start] == s@[i as int]);
                assert(!all_digits(digs));
                if !signed {
                    assert(s@.skip(0) =~= s@);
                }
            }
            return None;
        }
        let d = ((c as u32) - 48) as usize;
        proof {
            assert(s@.subrange(start as int, i as int + 1).drop_last() =~= s@.subrange(
                start as int,
                i as int,
            ));
            assert(s@.subrange(start as int, i as int + 1).last() == s@[i as int]);
        }
        let ghost next_prefix = s@.subrange(start as int, i as int + 1);
        let over: bool = match v.checked_mul(10) {
            Some(x) => match x.checked_add(d) {
                Some(y) => {
                    if y > lim {
                        true
                    } else {
                        v = y;
                        false
                    }
                },
                None => true,
            },
            None => true,
        };
        if over {
            proof {
                if !signed {
                    assert(s@.skip(0) =~= s@);
                }
                if all_digits(digs) {
                    lemma_digits_value_prefix(digs, i - start + 1);
                    assert(digs.take(i - start + 1) =~= next_prefix);
                    assert(digits_value(digs) > lim);
                }
            }
            return None;
        }
        i += 1;
    }
    proof {
        if !signed {
            assert(s@.skip(0) =~= s@);
        }
        assert(s@.subrange(start as int, n as int) =~= digs);
        assert(is_int_literal(s@));
    }
    if neg {
        if v == (isize::MAX as usize) + 1 {
            Some(isize::MIN)
        } else {
            Some(-(v as isize))
        }
    } else {
        Some(v as isize)
    }
}

/// Parse a word as an unsigned decimal literal. Returns the value exactly
/// when the word is non-empty, all digits, and the value fits in `usize`.
pub fn parse_usize(s: &str) -> (r: Option<usize>)
    ensures
        r == (if s@.len() > 0 && all_digits(s@) && digits_value(s@) <= usize::MAX {
            Some(digits_value(s@) as usize)
        } else {
            None::<usize>
        }),
{
    let n = s.unicode_len();
    if n == 0 {
        return None;
    }
    let mut v: usize = 0;
    let mut i: usize = 0;
    proof {
        assert(s@.take(0) =~= Seq::<char>::empty());
    }
    while i < n
        invariant
            0 < n == s@.len(),
            0 <= i <= n,
            forall|j: int| 0 <= j < i ==> is_digit(s@[j]),
            v == digits_value(s@.take(i as int)),
        decreases n - i,
    {
        let c = s.get_char(i);
        if !is_digit_char(c) {
            return None;
        }
        let d = ((c as u32) - 48) as usize;
        proof {
            assert(s@.take(i as int + 1).drop_last() =~= s@.take(i as int));
            assert(s@.take(i as int + 1).last() == s@[i as int]);
        }
        let v10 = match v.checked_mul(10) {
            Some(x) => x,
            None => {
                proof {
                    if all_digits(s@) {
                        lemma_digits_value_prefix(s@, i as int + 1);
                    }
                }
                return None;
            },
        };
        let vnew = match v10.checked_add(d) {
            Some(x) => x,
            None => {
                proof {
                    if all_digits(s@) {
                        lemma_digits_value_prefix(s@, i as int + 1);
                    }
                }
                return None;
            },
        };
        v = vnew;
        i += 1;
    }
    proof {
        assert(s@.take(n as int) =~= s@);
    }
    Some(v)
}

} // verus!
