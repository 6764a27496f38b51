use vstd::prelude::*;

verus! {

/// The texts of a sequence of strings.
pub open spec fn texts(strings: Seq<String>) -> Seq<Seq<char>> {
    strings.map_values(|s: String| s@)
}

/// Whether `c` is white space: one of the code points that Unicode marks
/// `White_Space`.
pub open spec fn is_space(c: char) -> bool {
    let n = c as u32;
    ||| 0x09 <= n <= 0x0D
    ||| n == 0x20
    ||| n == 0x85
    ||| n == 0xA0
    ||| n == 0x1680
    ||| 0x2000 <= n <= 0x200A
    ||| n == 0x2028
    ||| n == 0x2029
    ||| n == 0x202F
    ||| n == 0x205F
    ||| n == 0x3000
}

/// Whether a text is empty once the white space at both ends is trimmed
/// off, which is to say that it holds nothing but white space.
pub open spec fn is_blank(s: Seq<char>) -> bool {
    forall|i: int| 0 <= i < s.len() ==> is_space(#[trigger] s[i])
}

/// Whether `c` is white space.
pub fn is_space_char(c: char) -> (b: bool)
    ensures
        b == is_space(c),
{
    let n: u32 = c as u32;
    (0x09 <= n && n <= 0x0D) || n == 0x20 || n == 0x85 || n == 0xA0 || n == 0x1680 || (0x2000 <= n
        && n <= 0x200A) || n == 0x2028 || n == 0x2029 || n == 0x202F || n == 0x205F || n == 0x3000
}

/// Whether a text holds nothing but white space.
pub fn blank(s: &str) -> (b: bool)
    ensures
        b == is_blank(s@),
{
    let n: usize = s.unicode_len();
    let mut i: usize = 0;
    while i < n
        invariant
            n == s@.len(),
            i <= n,
            forall|j: int| 0 <= j < i ==> is_space(#[trigger] s@[j]),
        decreases n - i,
    {
        if !is_space_char(s.get_char(i)) {
            return false;
        }
        i += 1;
    }
    true
}

/// Whether `c` is one of the ten decimal digits.
pub open spec fn is_digit(c: char) -> bool {
    '0' <= c <= '9'
}

/// The number a decimal digit stands for.
pub open spec fn digit_value(c: char) -> int {
    c as u32 - 0x30
}

/// Whether a text is made of decimal digits alone.
pub open spec fn all_digits(s: Seq<char>) -> bool {
    forall|i: int| 0 <= i < s.len() ==> is_digit(#[trigger] s[i])
}

/// The number that a run of decimal digits denotes; 0 for the empty run.
pub open spec fn decimal_value(s: Seq<char>) -> int
    decreases s.len(),
{
    if s.len() == 0 {
        0
    } else {
        10 * decimal_value(s.drop_last()) + digit_value(s.last())
    }
}

/// The integer that a text denotes: an optional `+` or `-`, then one or
/// more decimal digits and nothing else. `None` for any other text.
pub open spec fn integer_value(s: Seq<char>) -> Option<int> {
    if s.len() > 0 && (s[0] == '-' || s[0] == '+') {
        let digits = s.subrange(1, s.len() as int);
        if digits.len() > 0 && all_digits(digits) {
            if s[0] == '-' {
                Some(-decimal_value(digits))
            } else {
                Some(decimal_value(digits))
            }
        } else {
            None
        }
    } else if s.len() > 0 && all_digits(s) {
        Some(decimal_value(s))
    } else {
        None
    }
}

/// The 32-bit integer that a text denotes, where it denotes an integer and
/// that integer fits.
pub open spec fn parsed_i32(s: Seq<char>) -> Option<i32> {
    match integer_value(s) {
        Some(v) => if i32::MIN <= v <= i32::MAX {
            Some(v as i32)
        } else {
            None
        },
        None => None,
    }
}

/// A run of digits denotes at least what any of its prefixes denotes.
proof fn lemma_prefix_value(s: Seq<char>, k: int)
    requires
        all_digits(s),
        0 <= k <= s.len(),
    ensures
        0 <= decimal_value(s.subrange(0, k)) <= decimal_value(s),
    decreases s.len() - k,
{
    if k == s.len() {
        assert(s.subrange(0, k) =~= s);
        lemma_value_nonnegative(s);
    } else {
        lemma_prefix_value(s, k + 1);
        let longer = s.subrange(0, k + 1);
        assert(longer.drop_last() =~= s.subrange(0, k));
        assert(is_digit(s[k]));
        assert(longer.last() == s[k]);
        lemma_value_nonnegative(s.subrange(0, k));
    }
}

/// A run of digits denotes no negative number.
proof fn lemma_value_nonnegative(s: Seq<char>)
    requires
        all_digits(s),
    ensures
        0 <= decimal_value(s),
    decreases s.len(),
{
    if s.len() > 0 {
        assert(is_digit(s.last()));
        lemma_value_nonnegative(s.drop_last());
    }
}

/// Reads a text as a 32-bit integer in decimal notation.
pub fn parse_i32(s: &str) -> (r: Option<i32>)
    ensures
        r == parsed_i32(s@),
{
    let n: usize = s.unicode_len();
    if n == 0 {
        return None;
    }
    let first: char = s.get_char(0);
    let signed: bool = first == '-' || first == '+';
    let start: usize = if signed { 1 } else { 0 };
    if start == n {
        return None;
    }
    let ghost digits: Seq<char> = s@.subrange(start as int, n as int);
    let mut magnitude: i64 = 0;
    let mut i: usize = start;
    while i < n
        invariant
            n == s@.len(),
            start <= i <= n,
            first == s@[0],
            signed == (first == '-' || first == '+'),
            start == if signed { 1usize } else { 0usize },
            digits == s@.subrange(start as int, n as int),
            all_digits(digits.subrange(0, i - start)),
            magnitude == decimal_value(digits.subrange(0, i - start)),
            0 <= magnitude <= 0x8000_0000,
        decreases n - i,
    {
        let c: char = s.get_char(i);
        if !('0' <= c && c <= '9') {
            assert(digits[i - start] == c);
            assert(!signed ==> digits =~= s@);
            return None;
        }
        let d: i64 = (c as u32 - 0x30) as i64;
        let ghost before = digits.subrange(0, i - start);
        let ghost after = digits.subrange(0, i - start + 1);
        assert(after.drop_last() =~= before);
        assert(after.last() == c);
        assert forall|j: int| 0 <= j < after.len() implies is_digit(#[trigger] after[j]) by {
            if j < before.len() {
                assert(after[j] == before[j]);
            }
        }
        magnitude = magnitude * 10 + d;
        i += 1;
        if magnitude > 0x8000_0000 {
            proof {
                assert(!signed ==> digits =~= s@);
                if all_digits(digits) {
                    lemma_prefix_value(digits, i - start);
                }
            }
            return None;
        }
    }
    assert(digits.subrange(0, n - start) =~= digits);
    assert(!signed ==> digits =~= s@);
    if first == '-' {
        Some((-magnitude) as i32)
    } else if magnitude <= 0x7fff_ffff {
        Some(magnitude as i32)
    } else {
        None
    }
}

/// The dictionary order of texts, character by character by code point: a
/// text comes before every text that it is a proper prefix of.
pub open spec fn lex_le(a: Seq<char>, b: Seq<char>) -> bool
    decreases a.len(),
{
    if a.len() == 0 {
        true
    } else if b.len() == 0 {
        false
    } else if a[0] != b[0] {
        a[0] < b[0]
    } else {
        lex_le(a.drop_first(), b.drop_first())
    }
}

/// Of two texts one comes no later than the other.
pub proof fn lemma_lex_total(a: Seq<char>, b: Seq<char>)
    ensures
        lex_le(a, b) || lex_le(b, a),
    decreases a.len(),
{
    if a.len() > 0 && b.len() > 0 && a[0] == b[0] {
        lemma_lex_total(a.drop_first(), b.drop_first());
    }
}

/// The dictionary order is transitive.
pub proof fn lemma_lex_transitive(a: Seq<char>, b: Seq<char>, c: Seq<char>)
    requires
        lex_le(a, b),
        lex_le(b, c),
    ensures
        lex_le(a, c),
    decreases a.len(),
{
    if a.len() > 0 && b.len() > 0 && c.len() > 0 && a[0] == b[0] && b[0] == c[0] {
        lemma_lex_transitive(a.drop_first(), b.drop_first(), c.drop_first());
    }
}

/// Whether `a` comes no later than `b` in dictionary order.
pub fn text_le(a: &str, b: &str) -> (r: bool)
    ensures
        r == lex_le(a@, b@),
{
    let la: usize = a.unicode_len();
    let lb: usize = b.unicode_len();
    let mut i: usize = 0;
    assert(a@.skip(0) =~= a@ && b@.skip(0) =~= b@);
    while i < la && i < lb
        invariant
            la == a@.len(),
            lb == b@.len(),
            i <= la,
            i <= lb,
            lex_le(a@, b@) == lex_le(a@.skip(i as int), b@.skip(i as int)),
        decreases la - i,
    {
        let x: char = a.get_char(i);
        let y: char = b.get_char(i);
        assert(a@.skip(i as int)[0] == x);
        assert(b@.skip(i as int)[0] == y);
        if x != y {
            return x < y;
        }
        assert(a@.skip(i as int).drop_first() =~= a@.skip(i + 1));
        assert(b@.skip(i as int).drop_first() =~= b@.skip(i + 1));
        i += 1;
    }
    i == la
}

/// The character that writes a digit.
pub open spec fn digit_char(d: int) -> char {
    if d == 0 {
        '0'
    } else if d == 1 {
        '1'
    } else if d == 2 {
        '2'
    } else if d == 3 {
        '3'
    } else if d == 4 {
        '4'
    } else if d == 5 {
        '5'
    } else if d == 6 {
        '6'
    } else if d == 7 {
        '7'
    } else if d == 8 {
        '8'
    } else {
        '9'
    }
}

/// The decimal digits of a number, without leading zeros.
pub open spec fn digits_of(n: nat) -> Seq<char>
    decreases n,
{
    if n < 10 {
        seq![digit_char(n as int)]
    } else {
        digits_of(n / 10).push(digit_char((n % 10) as int))
    }
}

/// An integer in decimal notation: its digits, behind a `-` if it is
/// negative.
pub open spec fn decimal_text(i: int) -> Seq<char> {
    if i < 0 {
        seq!['-'] + digits_of((-i) as nat)
    } else {
        digits_of(i as nat)
    }
}

/// The characters of digits that were collected from the lowest up, in
/// the order in which they are written.
spec fn written(low: Seq<u8>) -> Seq<char>
    decreases low.len(),
{
    if low.len() == 0 {
        Seq::empty()
    } else {
        seq![digit_char(low.last() as int)] + written(low.drop_last())
    }
}

/// A digit as a text of one character.
fn digit_text(d: u8) -> (s: &'static str)
    requires
        d < 10,
    ensures
        s@ == seq![digit_char(d as int)],
{
    proof {
        reveal_strlit("0");
        reveal_strlit("1");
        reveal_strlit("2");
        reveal_strlit("3");
        reveal_strlit("4");
        reveal_strlit("5");
        reveal_strlit("6");
        reveal_strlit("7");
        reveal_strlit("8");
        reveal_strlit("9");
    }
    let s = match d {
        0 => "0",
        1 => "1",
        2 => "2",
        3 => "3",
        4 => "4",
        5 => "5",
        6 => "6",
        7 => "7",
        8 => "8",
        _ => "9",
    };
    assert(s@ =~= seq![digit_char(d as int)]);
    s
}

/// Writes an integer in decimal notation.
pub fn integer_text(n: i32) -> (text: String)
    ensures
        text@ == decimal_text(n as int),
{
    let magnitude: u32 = if n < 0 {
        (-(n as i64)) as u32
    } else {
        n as u32
    };
    let mut rest: u32 = magnitude;
    let mut low: Vec<u8> = Vec::new();
    assert(digits_of(rest as nat) + written(low@) =~= digits_of(magnitude as nat));
    while rest >= 10
        invariant
            digits_of(magnitude as nat) == digits_of(rest as nat) + written(low@),
            forall|j: int| 0 <= j < low@.len() ==> #[trigger] low@[j] < 10,
        decreases rest,
    {
        let d: u8 = (rest % 10) as u8;
        proof {
            let more = low@.push(d);
            assert(more.drop_last() =~= low@);
            assert(written(more) == seq![digit_char(d as int)] + written(low@));
            assert(digits_of((rest / 10) as nat) + written(more) =~= digits_of(rest as nat)
                + written(low@));
        }
        low.push(d);
        rest = rest / 10;
    }
    let mut text: String = if n < 0 {
        proof {
            reveal_strlit("-");
        }
        String::from_str("-")
    } else {
        String::new()
    };
    let ghost sign: Seq<char> = text@;
    assert(sign =~= if n < 0 { seq!['-'] } else { Seq::<char>::empty() });
    text.append(digit_text(rest as u8));
    let mut k: usize = low.len();
    assert(low@.subrange(0, k as int) =~= low@);
    while k > 0
        invariant
            k <= low@.len(),
            forall|j: int| 0 <= j < low@.len() ==> #[trigger] low@[j] < 10,
            text@ + written(low@.subrange(0, k as int)) == sign + digits_of(magnitude as nat),
        decreases k,
    {
        proof {
            let upto = low@.subrange(0, k as int);
            assert(upto.drop_last() =~= low@.subrange(0, k - 1));
            assert(upto.last() == low@[k - 1]);
            assert((text@ + seq![digit_char(low@[k - 1] as int)]) + written(
                low@.subrange(0, k - 1),
            ) =~= text@ + written(upto));
        }
        k -= 1;
        text.append(digit_text(low[k]));
    }
    assert(text@ + written(low@.subrange(0, 0)) =~= text@);
    assert(sign + digits_of(magnitude as nat) =~= decimal_text(n as int));
    text
}

/// Whether two texts are the same.
pub fn same_text(a: &str, b: &str) -> (r: bool)
    ensures
        r == (a@ == b@),
{
    let n: usize = a.unicode_len();
    if n != b.unicode_len() {
        return false;
    }
    let mut i: usize = 0;
    while i < n
        invariant
            n == a@.len(),
            n == b@.len(),
            i <= n,
            forall|j: int| 0 <= j < i ==> a@[j] == b@[j],
        decreases n - i,
    {
        if a.get_char(i) != b.get_char(i) {
            return false;
        }
        i += 1;
    }
    assert(a@ =~= b@);
    true
}

} // verus!
