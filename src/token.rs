use vstd::prelude::*;
use vstd::string::*;

verus! {

/// The classification of one input string.
#[derive(Debug, Clone, Copy, PartialEq, Eq, Structural)]
pub enum TokenType {
    /// The string is not dice notation.
    BadToken,
    /// A request to roll `number` dice with `sides` faces each.
    DiceCode { number: usize, sides: usize },
}

pub open spec fn is_digit(c: char) -> bool {
    '0' <= c && c <= '9'
}

pub open spec fn digit_value(c: char) -> nat {
    (c as int - '0' as int) as nat
}

/// A character that may appear in dice notation.
pub open spec fn notation_char(c: char) -> bool {
    c == 'd' || is_digit(c)
}

pub open spec fn all_digits(s: Seq<char>) -> bool {
    forall|i: int| 0 <= i < s.len() ==> is_digit(#[trigger] s[i])
}

/// The number that a string of decimal digits denotes (0 for the empty string).
pub open spec fn decimal_value(s: Seq<char>) -> nat
    decreases s.len(),
{
    if s.len() == 0 {
        0
    } else {
        decimal_value(s.drop_last()) * 10 + digit_value(s.last())
    }
}

/// How many times `c` occurs in `s`.
pub open spec fn count_char(s: Seq<char>, c: char) -> nat
    decreases s.len(),
{
    if s.len() == 0 {
        0
    } else {
        count_char(s.drop_last(), c) + if s.last() == c { 1nat } else { 0nat }
    }
}

/// The token for the two sides of the `d`: an empty count means one die, an
/// empty side count or a number beyond `usize` makes the string invalid.
pub open spec fn dice_of(fore: Seq<char>, aft: Seq<char>) -> TokenType {
    let number = if fore.len() == 0 { 1 } else { decimal_value(fore) };
    let sides = decimal_value(aft);
    if aft.len() > 0 && number <= usize::MAX && sides <= usize::MAX {
        TokenType::DiceCode { number: number as usize, sides: sides as usize }
    } else {
        TokenType::BadToken
    }
}

/// The token that a string denotes: exactly one `d`, nothing but digits
/// around it, and both numbers readable.
pub open spec fn token_of(s: Seq<char>) -> TokenType {
    if count_char(s, 'd') == 1 && forall|i: int|
        0 <= i < s.len() ==> notation_char(#[trigger] s[i]) {
        let k = choose|k: int| 0 <= k < s.len() && s[k] == 'd';
        dice_of(s.take(k), s.skip(k + 1))
    } else {
        TokenType::BadToken
    }
}

proof fn lemma_count_at_least_one(s: Seq<char>, c: char, i: int)
    requires
        0 <= i < s.len(),
        s[i] == c,
    ensures
        count_char(s, c) >= 1,
    decreases s.len(),
{
    if i < s.len() - 1 {
        lemma_count_at_least_one(s.drop_last(), c, i);
    }
}

/// Two occurrences of `c` count twice.
proof fn lemma_count_at_least_two(s: Seq<char>, c: char, i: int, j: int)
    requires
        0 <= i < j < s.len(),
        s[i] == c,
        s[j] == c,
    ensures
        count_char(s, c) >= 2,
    decreases s.len(),
{
    if j < s.len() - 1 {
        lemma_count_at_least_two(s.drop_last(), c, i, j);
    } else {
        lemma_count_at_least_one(s.drop_last(), c, i);
    }
}

/// Where `s` has exactly one `c`, every index of a `c` is the same.
proof fn lemma_single_position(s: Seq<char>, c: char, i: int, j: int)
    requires
        count_char(s, c) == 1,
        0 <= i < s.len(),
        0 <= j < s.len(),
        s[i] == c,
        s[j] == c,
    ensures
        i == j,
{
    if i < j {
        lemma_count_at_least_two(s, c, i, j);
    } else if j < i {
        lemma_count_at_least_two(s, c, j, i);
    }
}

/// A string with exactly one `d` and nothing but digits around it reads as
/// the numbers on either side of the `d` (an empty count being one), provided
/// that the side count is not empty and both numbers fit in `usize`.
pub proof fn lemma_notation_reads_as_dice(s: Seq<char>, k: int)
    requires
        count_char(s, 'd') == 1,
        forall|i: int| 0 <= i < s.len() && i != k ==> is_digit(#[trigger] s[i]),
        0 <= k < s.len() - 1,
        s[k] == 'd',
        k == 0 || decimal_value(s.take(k)) <= usize::MAX,
        decimal_value(s.skip(k + 1)) <= usize::MAX,
    ensures
        token_of(s) == (TokenType::DiceCode {
            number: if k == 0 { 1 } else { decimal_value(s.take(k)) as usize },
            sides: decimal_value(s.skip(k + 1)) as usize,
        }),
{
    assert forall|i: int| 0 <= i < s.len() implies notation_char(#[trigger] s[i]) by {
        if i != k {
            assert(is_digit(s[i]));
        }
    }
    let c = choose|c: int| 0 <= c < s.len() && s[c] == 'd';
    lemma_single_position(s, 'd', c, k);
}

/// A string without exactly one `d`, or with a character that is neither a
/// digit nor `d`, is not dice notation.
pub proof fn lemma_malformed_is_bad(s: Seq<char>)
    requires
        count_char(s, 'd') != 1 || exists|i: int| 0 <= i < s.len() && !notation_char(#[trigger] s[i]),
    ensures
        token_of(s) == TokenType::BadToken,
{
}

/// Reads the digits of `s` in `from..to` as a number; `None` where it is
/// beyond `usize`.
fn parse_digits(s: &str, from: usize, to: usize) -> (r: Option<usize>)
    requires
        from <= to <= s@.len(),
        all_digits(s@.subrange(from as int, to as int)),
    ensures
        decimal_value(s@.subrange(from as int, to as int)) <= usize::MAX ==> r == Some(
            decimal_value(s@.subrange(from as int, to as int)) as usize,
        ),
        decimal_value(s@.subrange(from as int, to as int)) > usize::MAX ==> r is None,
{
    let mut acc: usize = 0;
    let mut too_big = false;
    let mut i: usize = from;
    while i < to
        invariant
            from <= i <= to <= s@.len(),
            all_digits(s@.subrange(from as int, to as int)),
            !too_big ==> acc as nat == decimal_value(s@.subrange(from as int, i as int)),
            too_big ==> decimal_value(s@.subrange(from as int, i as int)) > usize::MAX,
        decreases to - i,
    {
        let c = s.get_char(i);
        assert(s@.subrange(from as int, i + 1).drop_last() =~= s@.subrange(from as int, i as int));
        assert(s@.subrange(from as int, to as int)[i - from] == c);
        let d = (c as u32 - '0' as u32) as usize;
        if !too_big {
            match acc.checked_mul(10) {
                Some(m) => match m.checked_add(d) {
                    Some(v) => {
                        acc = v;
                    },
                    None => {
                        too_big = true;
                    },
                },
                None => {
                    too_big = true;
                },
            }
        }
        i = i + 1;
    }
    if too_big {
        None
    } else {
        Some(acc)
    }
}

/// Classifies one string as dice notation or not.
pub fn tokenize_one(s: &String) -> (t: TokenType)
    ensures
        t == token_of(s@),
{
    let text = s.as_str();
    let n = text.unicode_len();
    let mut d_count: usize = 0;
    let mut d_pos: usize = 0;
    let mut only_notation = true;
    let mut i: usize = 0;
    while i < n
        invariant
            n == text@.len(),
            text@ == s@,
            i <= n,
            d_count <= i,
            d_count as nat == count_char(text@.take(i as int), 'd'),
            only_notation <==> forall|j: int| 0 <= j < i ==> notation_char(#[trigger] text@[j]),
            d_count >= 1 ==> d_pos < i && text@[d_pos as int] == 'd',
        decreases n - i,
    {
        let c = text.get_char(i);
        assert(text@.take(i + 1).drop_last() =~= text@.take(i as int));
        if c == 'd' {
            d_count = d_count + 1;
            d_pos = i;
        } else if !('0' <= c && c <= '9') {
            only_notation = false;
        }
        i = i + 1;
    }
    assert(text@.take(n as int) =~= text@);
    if d_count == 1 && only_notation {
        proof {
            let k = choose|k: int| 0 <= k < s@.len() && s@[k] == 'd';
            lemma_single_position(s@, 'd', k, d_pos as int);
            assert(all_digits(s@.take(k))) by {
                assert forall|j: int| 0 <= j < k implies is_digit(#[trigger] s@.take(k)[j]) by {
                    if s@[j] == 'd' {
                        lemma_single_position(s@, 'd', k, j);
                    }
                }
            }
            assert(all_digits(s@.skip(k + 1))) by {
                assert forall|j: int| 0 <= j < s@.skip(k + 1).len() implies is_digit(
                    #[trigger] s@.skip(k + 1)[j],
                ) by {
                    if s@[k + 1 + j] == 'd' {
                        lemma_single_position(s@, 'd', k, k + 1 + j);
                    }
                }
            }
            assert(s@.subrange(0, k) =~= s@.take(k));
            assert(s@.subrange(k + 1, n as int) =~= s@.skip(k + 1));
        }
        let fore = if d_pos == 0 {
            Some(1usize)
        } else {
            parse_digits(text, 0, d_pos)
        };
        let aft = parse_digits(text, d_pos + 1, n);
        if d_pos + 1 < n {
            match (fore, aft) {
                (Some(number), Some(sides)) => TokenType::DiceCode { number, sides },
                _ => TokenType::BadToken,
            }
        } else {
            TokenType::BadToken
        }
    } else {
        TokenType::BadToken
    }
}

/// Classifies each string, in order.
pub fn tokenize(strings: &Vec<String>) -> (r: Vec<TokenType>)
    ensures
        r@.len() == strings@.len(),
        forall|i: int| 0 <= i < r@.len() ==> r@[i] == token_of(#[trigger] strings@[i]@),
{
    let mut r: Vec<TokenType> = Vec::new();
    let mut i: usize = 0;
    while i < strings.len()
        invariant
            i <= strings@.len(),
            r@.len() == i,
            forall|j: int| 0 <= j < i ==> r@[j] == token_of(#[trigger] strings@[j]@),
        decreases strings@.len() - i,
    {
        let t = tokenize_one(&strings[i]);
        r.push(t);
        i = i + 1;
    }
    r
}

} // verus!
