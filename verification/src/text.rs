//! Text building blocks: decimal numerals, path segments, lower case and the
//! order of strings.

use vstd::prelude::*;
use vstd::string::*;
use vstd::relations::{antisymmetric, reflexive, strongly_connected, total_ordering, transitive};

verus! {

/// The character that writes the digit `d`; `'9'` stands for everything above 8.
pub open spec fn digit_char(d: nat) -> char {
    if d == 0 {
        '0'
    } else if d == 1 {
        '1'
    } else if d == 2 {
        '2'
    } else if d == 3 {
        '3'
    } else if d == 4 {
        '4'
    } else if d == 5 {
        '5'
    } else if d == 6 {
        '6'
    } else if d == 7 {
        '7'
    } else if d == 8 {
        '8'
    } else {
        '9'
    }
}

/// The decimal numeral of `n`: most significant digit first, no leading zero,
/// and `"0"` for zero.
pub open spec fn decimal(n: nat) -> Seq<char>
    decreases n,
{
    if n < 10 {
        seq![digit_char(n)]
    } else {
        decimal(n / 10).push(digit_char(n % 10))
    }
}

/// The digit that `c` writes; 9 for every character but `'0'` to `'8'`.
pub open spec fn digit_value(c: char) -> nat {
    if c == '0' {
        0
    } else if c == '1' {
        1
    } else if c == '2' {
        2
    } else if c == '3' {
        3
    } else if c == '4' {
        4
    } else if c == '5' {
        5
    } else if c == '6' {
        6
    } else if c == '7' {
        7
    } else if c == '8' {
        8
    } else {
        9
    }
}

/// The number that a row of digits writes in decimal, the empty row writing 0.
pub open spec fn numeral_value(digits: Seq<char>) -> nat
    decreases digits.len(),
{
    if digits.len() == 0 {
        0
    } else {
        10 * numeral_value(digits.drop_last()) + digit_value(digits.last())
    }
}

/// `decimal(n)` is the numeral of `n`: digits only, read back as `n`, and
/// without a leading zero unless `n` is 0.
pub proof fn lemma_decimal(n: nat)
    ensures
        numeral_value(decimal(n)) == n,
        decimal(n).len() >= 1,
        forall|i: int|
            0 <= i < decimal(n).len() ==> digit_char(digit_value(#[trigger] decimal(n)[i]))
                == decimal(n)[i],
        n > 0 ==> decimal(n)[0] != '0',
    decreases n,
{
    if n < 10 {
        assert(decimal(n).drop_last() =~= Seq::<char>::empty());
        assert(decimal(n).last() == digit_char(n));
        assert(numeral_value(decimal(n).drop_last()) == 0);
    } else {
        lemma_decimal(n / 10);
        assert(decimal(n).drop_last() =~= decimal(n / 10));
        assert(decimal(n).last() == digit_char(n % 10));
        assert(decimal(n)[0] == decimal(n / 10)[0]);
    }
}

/// The one-character text of a single digit.
fn digit_text(d: u64) -> (text: &'static str)
    requires
        d < 10,
    ensures
        text@ == seq![digit_char(d as nat)],
{
    proof {
        reveal_strlit("0");
        reveal_strlit("1");
        reveal_strlit("2");
        reveal_strlit("3");
        reveal_strlit("4");
        reveal_strlit("5");
        reveal_strlit("6");
        reveal_strlit("7");
        reveal_strlit("8");
        reveal_strlit("9");
    }
    let text: &'static str = if d == 0 {
        "0"
    } else if d == 1 {
        "1"
    } else if d == 2 {
        "2"
    } else if d == 3 {
        "3"
    } else if d == 4 {
        "4"
    } else if d == 5 {
        "5"
    } else if d == 6 {
        "6"
    } else if d == 7 {
        "7"
    } else if d == 8 {
        "8"
    } else {
        "9"
    };
    assert(text@ =~= seq![digit_char(d as nat)]);
    text
}

/// Writes `n` in decimal.
pub fn decimal_string(n: u64) -> (text: String)
    ensures
        text@ == decimal(n as nat),
    decreases n,
{
    if n < 10 {
        String::from_str(digit_text(n))
    } else {
        let mut text = decimal_string(n / 10);
        text.append(digit_text(n % 10));
        assert(text@ =~= decimal(n as nat));
        text
    }
}

/// Where the last segment of `s` starts: just behind the last `sep`, or at 0
/// where `s` holds no `sep`.
pub open spec fn segment_start(s: Seq<char>, sep: char) -> int
    decreases s.len(),
{
    if s.len() == 0 {
        0
    } else if s.last() == sep {
        s.len() as int
    } else {
        segment_start(s.drop_last(), sep)
    }
}

/// What follows the last `sep` in `s`: all of `s` where it holds no `sep`, and
/// the empty text where `s` ends in one.
pub open spec fn last_segment(s: Seq<char>, sep: char) -> Seq<char> {
    s.subrange(segment_start(s, sep), s.len() as int)
}

/// `k` splits `s` at its last separator: nothing from `k` on is a separator,
/// and `k` is 0 or stands just behind one.
pub open spec fn starts_last_segment(s: Seq<char>, sep: char, k: int) -> bool {
    &&& 0 <= k <= s.len()
    &&& k == 0 || s[k - 1] == sep
    &&& forall|i: int| k <= i < s.len() ==> s[i] != sep
}

/// `segment_start` is the one index that splits `s` at its last separator.
pub proof fn lemma_segment_start(s: Seq<char>, sep: char)
    ensures
        starts_last_segment(s, sep, segment_start(s, sep)),
        forall|k: int| starts_last_segment(s, sep, k) ==> k == segment_start(s, sep),
    decreases s.len(),
{
    if s.len() > 0 && s.last() != sep {
        let front = s.drop_last();
        lemma_segment_start(front, sep);
        let start = segment_start(front, sep);
        assert(starts_last_segment(s, sep, start)) by {
            assert(start == 0 || s[start - 1] == front[start - 1]);
            assert forall|i: int| start <= i < s.len() implies s[i] != sep by {
                if i < front.len() {
                    assert(s[i] == front[i]);
                }
            }
        }
        assert forall|k: int| starts_last_segment(s, sep, k) implies k == start by {
            assert(k != s.len());
            assert(starts_last_segment(front, sep, k)) by {
                assert(k == 0 || front[k - 1] == s[k - 1]);
                assert forall|i: int| k <= i < front.len() implies front[i] != sep by {
                    assert(front[i] == s[i]);
                }
            }
        }
    } else {
        let start = segment_start(s, sep);
        assert forall|k: int| starts_last_segment(s, sep, k) implies k == start by {
            if s.len() > 0 && k < s.len() {
                assert(s[s.len() - 1] != sep);
            }
        }
    }
}

/// The last segment holds no separator, and `s` is what stands before it
/// followed by it.
pub proof fn lemma_last_segment(s: Seq<char>, sep: char)
    ensures
        !last_segment(s, sep).contains(sep),
        s == s.subrange(0, segment_start(s, sep)) + last_segment(s, sep),
        !s.contains(sep) ==> last_segment(s, sep) == s,
{
    lemma_segment_start(s, sep);
    let start = segment_start(s, sep);
    let seg = last_segment(s, sep);
    assert forall|i: int| 0 <= i < seg.len() implies seg[i] != sep by {
        assert(seg[i] == s[start + i]);
    }
    assert(s =~= s.subrange(0, start) + seg);
    if !s.contains(sep) {
        if start > 0 {
            assert(s.contains(s[start - 1]));
        }
        assert(seg =~= s);
    }
}

/// Cuts the last segment out of `path`: what follows its last `sep`.
pub fn last_segment_of(path: &str, sep: char) -> (segment: String)
    ensures
        segment@ == last_segment(path@, sep),
{
    let len: usize = path.unicode_len();
    let mut start: usize = len;
    while start > 0 && path.get_char(start - 1) != sep
        invariant
            start <= len,
            len == path@.len(),
            forall|i: int| start <= i < len ==> path@[i] != sep,
        decreases start,
    {
        start = start - 1;
    }
    proof {
        assert(starts_last_segment(path@, sep, start as int));
        lemma_segment_start(path@, sep);
    }
    String::from_str(path.substring_char(start, len))
}

/// The lower-case form of a text, as `str::to_lowercase` of the standard
/// library gives it. Unicode decides it; it is a function of the text alone.
pub uninterp spec fn lowercase(s: Seq<char>) -> Seq<char>;

/// `str::to_lowercase` of the standard library. Trusted: its result is the
/// lower-case form of the text it is given, which `lowercase` names.
pub assume_specification[ str::to_lowercase ](s: &str) -> (lowered: String)
    ensures
        lowered@ == lowercase(s@),
;

/// Whether `a` is `b` or stands before it in the order of strings: texts are
/// compared character by character, by code point, and a text stands before
/// every longer text that it begins.
pub open spec fn text_le(a: Seq<char>, b: Seq<char>) -> bool
    decreases a.len(),
{
    if a.len() == 0 {
        true
    } else if b.len() == 0 {
        false
    } else if a[0] == b[0] {
        text_le(a.drop_first(), b.drop_first())
    } else {
        (a[0] as int) < (b[0] as int)
    }
}

/// The order of strings as a relation.
pub open spec fn text_order() -> spec_fn(Seq<char>, Seq<char>) -> bool {
    |a: Seq<char>, b: Seq<char>| text_le(a, b)
}

proof fn lemma_text_le_reflexive(a: Seq<char>)
    ensures
        text_le(a, a),
    decreases a.len(),
{
    if a.len() > 0 {
        lemma_text_le_reflexive(a.drop_first());
    }
}

proof fn lemma_text_le_antisymmetric(a: Seq<char>, b: Seq<char>)
    requires
        text_le(a, b),
        text_le(b, a),
    ensures
        a == b,
    decreases a.len(),
{
    if a.len() == 0 || b.len() == 0 {
        assert(a =~= b);
    } else {
        lemma_text_le_antisymmetric(a.drop_first(), b.drop_first());
        assert(a =~= seq![a[0]] + a.drop_first());
        assert(b =~= seq![b[0]] + b.drop_first());
    }
}

proof fn lemma_text_le_transitive(a: Seq<char>, b: Seq<char>, c: Seq<char>)
    requires
        text_le(a, b),
        text_le(b, c),
    ensures
        text_le(a, c),
    decreases a.len(),
{
    if a.len() > 0 && a[0] == b[0] && b[0] == c[0] {
        lemma_text_le_transitive(a.drop_first(), b.drop_first(), c.drop_first());
    }
}

proof fn lemma_text_le_connected(a: Seq<char>, b: Seq<char>)
    ensures
        text_le(a, b) || text_le(b, a),
    decreases a.len(),
{
    if a.len() > 0 && b.len() > 0 {
        if a[0] == b[0] {
            lemma_text_le_connected(a.drop_first(), b.drop_first());
        } else {
            assert((a[0] as int) != (b[0] as int));
        }
    }
}

/// The order of strings is a total order.
pub proof fn lemma_text_order_total()
    ensures
        total_ordering(text_order()),
{
    let order = text_order();
    assert forall|a: Seq<char>| #[trigger] order(a, a) by {
        lemma_text_le_reflexive(a);
    }
    assert forall|a: Seq<char>, b: Seq<char>| #[trigger] order(a, b) && #[trigger] order(b, a) implies a
        == b by {
        lemma_text_le_antisymmetric(a, b);
    }
    assert forall|a: Seq<char>, b: Seq<char>, c: Seq<char>| #[trigger] order(a, b) && #[trigger] order(
        b,
        c,
    ) implies order(a, c) by {
        lemma_text_le_transitive(a, b, c);
    }
    assert forall|a: Seq<char>, b: Seq<char>| #[trigger] order(a, b) || #[trigger] order(b, a) by {
        lemma_text_le_connected(a, b);
    }
    assert(reflexive(order));
    assert(antisymmetric(order));
    assert(transitive(order));
    assert(strongly_connected(order));
}

/// What lies behind a common beginning decides the order.
proof fn lemma_text_le_skip(a: Seq<char>, b: Seq<char>, i: int)
    requires
        0 <= i <= a.len(),
        i <= b.len(),
        a.take(i) == b.take(i),
    ensures
        text_le(a, b) == text_le(a.skip(i), b.skip(i)),
    decreases i,
{
    if i == 0 {
        assert(a.skip(0) =~= a);
        assert(b.skip(0) =~= b);
    } else {
        assert(a[0] == a.take(i)[0]);
        assert(b[0] == b.take(i)[0]);
        let rest_a = a.drop_first();
        let rest_b = b.drop_first();
        assert(rest_a.take(i - 1) =~= a.take(i).drop_first());
        assert(rest_b.take(i - 1) =~= b.take(i).drop_first());
        lemma_text_le_skip(rest_a, rest_b, i - 1);
        assert(rest_a.skip(i - 1) =~= a.skip(i));
        assert(rest_b.skip(i - 1) =~= b.skip(i));
    }
}

/// Compares two texts in the order of strings.
pub fn text_le_of(a: &str, b: &str) -> (le: bool)
    ensures
        le == text_le(a@, b@),
{
    let len_a: usize = a.unicode_len();
    let len_b: usize = b.unicode_len();
    let mut i: usize = 0;
    while i < len_a && i < len_b
        invariant
            i <= len_a,
            i <= len_b,
            len_a == a@.len(),
            len_b == b@.len(),
            a@.take(i as int) == b@.take(i as int),
        decreases len_a - i,
    {
        let char_a = a.get_char(i);
        let char_b = b.get_char(i);
        if char_a != char_b {
            proof {
                lemma_text_le_skip(a@, b@, i as int);
            }
            return (char_a as u32) < (char_b as u32);
        }
        assert(a@.take(i + 1) =~= a@.take(i as int).push(char_a));
        assert(b@.take(i + 1) =~= b@.take(i as int).push(char_b));
        i += 1;
    }
    proof {
        lemma_text_le_skip(a@, b@, i as int);
    }
    i == len_a
}

} // verus!
