use crate::roller::{roll_all, rolled, rolls_fit_tokens};
use crate::token::{token_of, tokenize, TokenType};
use rand::rngs::ThreadRng;
use vstd::prelude::*;
use vstd::string::*;

verus! {

/// The sum of the rolls.
pub open spec fn roll_sum(rolls: Seq<usize>) -> nat
    decreases rolls.len(),
{
    if rolls.len() == 0 {
        0
    } else {
        roll_sum(rolls.drop_last()) + rolls.last() as nat
    }
}

pub open spec fn digit_char(d: nat) -> char {
    (d + '0' as nat) as char
}

/// The decimal digits of `n`, most significant first, without leading zeros.
pub open spec fn decimal(n: nat) -> Seq<char>
    decreases n,
{
    if n < 10 {
        seq![digit_char(n)]
    } else {
        decimal(n / 10).push(digit_char(n % 10))
    }
}

/// Each roll in decimal, each followed by a comma and a space.
pub open spec fn rolls_line(rolls: Seq<usize>) -> Seq<char>
    decreases rolls.len(),
{
    if rolls.len() == 0 {
        Seq::empty()
    } else {
        rolls_line(rolls.drop_last()) + decimal(rolls.last() as nat) + ", "@
    }
}

/// The report for one rolled request: a header `<number>d<sides>:`, the rolls
/// on a line after a tab, the line `Total: <sum>` and a separator `---`.
pub open spec fn block_text(number: usize, sides: usize, rolls: Seq<usize>) -> Seq<char> {
    decimal(number as nat) + seq!['d'] + decimal(sides as nat) + ":\n\t"@ + rolls_line(rolls)
        + "\nTotal: "@ + decimal(roll_sum(rolls)) + "\n---\n"@
}

/// What one token adds to the grand total: its roll sum if it was rolled.
pub open spec fn contribution(t: TokenType, rolls: Seq<usize>) -> nat {
    if rolled(t) {
        roll_sum(rolls)
    } else {
        0
    }
}

/// The sum over all rolled tokens of their rolls; `rolls[i]` belongs to `tokens[i]`.
pub open spec fn grand_total(tokens: Seq<TokenType>, rolls: Seq<Seq<usize>>) -> nat
    decreases tokens.len(),
{
    if tokens.len() == 0 {
        0
    } else {
        grand_total(tokens.drop_last(), rolls.drop_last()) + contribution(tokens.last(), rolls.last())
    }
}

/// The blocks of all rolled tokens, in order; other tokens write nothing.
pub open spec fn blocks_text(tokens: Seq<TokenType>, rolls: Seq<Seq<usize>>) -> Seq<char>
    decreases tokens.len(),
{
    if tokens.len() == 0 {
        Seq::empty()
    } else {
        blocks_text(tokens.drop_last(), rolls.drop_last()) + match tokens.last() {
            TokenType::DiceCode { number, sides } => if sides >= 1 {
                block_text(number, sides, rolls.last())
            } else {
                Seq::empty()
            },
            TokenType::BadToken => Seq::empty(),
        }
    }
}

/// The grand total as written: exact up to `u128::MAX`, where it stops.
pub open spec fn capped_total(tokens: Seq<TokenType>, rolls: Seq<Seq<usize>>) -> nat {
    if grand_total(tokens, rolls) <= u128::MAX {
        grand_total(tokens, rolls)
    } else {
        u128::MAX as nat
    }
}

/// The whole report: the blocks, then `Total roll:<grand total>`.
pub open spec fn report_text(tokens: Seq<TokenType>, rolls: Seq<Seq<usize>>) -> Seq<char> {
    blocks_text(tokens, rolls) + "Total roll:"@ + decimal(capped_total(tokens, rolls)) + "\n"@
}

/// The contents of each roll vector.
pub open spec fn views(rolls: Seq<Vec<usize>>) -> Seq<Seq<usize>> {
    rolls.map_values(|v: Vec<usize>| v@)
}

/// The token of each argument, in order.
pub open spec fn tokens_of(args: Seq<String>) -> Seq<TokenType> {
    args.map_values(|s: String| token_of(s@))
}

/// The grand total of two runs of tokens one after the other is the sum of
/// their grand totals.
pub proof fn lemma_grand_total_split(
    t1: Seq<TokenType>,
    r1: Seq<Seq<usize>>,
    t2: Seq<TokenType>,
    r2: Seq<Seq<usize>>,
)
    requires
        t1.len() == r1.len(),
        t2.len() == r2.len(),
    ensures
        grand_total(t1 + t2, r1 + r2) == grand_total(t1, r1) + grand_total(t2, r2),
    decreases t2.len(),
{
    if t2.len() > 0 {
        lemma_grand_total_split(t1, r1, t2.drop_last(), r2.drop_last());
        assert((t1 + t2).drop_last() =~= t1 + t2.drop_last());
        assert((r1 + r2).drop_last() =~= r1 + r2.drop_last());
    } else {
        assert(t1 + t2 =~= t1);
        assert(r1 + r2 =~= r1);
    }
}

/// The report ends with `Total roll:` and the sum over the rolled tokens of
/// their rolls: a token that is not rolled adds nothing, one that is adds its
/// roll sum, and a report of no tokens says `Total roll:0` alone.
pub proof fn lemma_total_line(
    tokens: Seq<TokenType>,
    rolls: Seq<Seq<usize>>,
    t: TokenType,
    rs: Seq<usize>,
)
    requires
        tokens.len() == rolls.len(),
        grand_total(tokens.push(t), rolls.push(rs)) <= u128::MAX,
    ensures
        report_text(tokens.push(t), rolls.push(rs)) == blocks_text(tokens.push(t), rolls.push(rs))
            + "Total roll:"@ + decimal(grand_total(tokens.push(t), rolls.push(rs))) + "\n"@,
        grand_total(tokens.push(t), rolls.push(rs)) == grand_total(tokens, rolls) + if rolled(t) {
            roll_sum(rs)
        } else {
            0
        },
        report_text(Seq::empty(), Seq::empty()) == "Total roll:"@ + seq!['0'] + "\n"@,
{
    assert(tokens.push(t).drop_last() =~= tokens);
    assert(rolls.push(rs).drop_last() =~= rolls);
    assert(decimal(0) == seq!['0']);
    assert(blocks_text(Seq::empty(), Seq::empty()) + "Total roll:"@ =~= "Total roll:"@);
}

/// Relies on String::push: appends the character.
#[verifier::external_body]
fn push_char(s: &mut String, c: char)
    ensures
        final(s)@ == old(s)@.push(c),
{
    s.push(c)
}

/// Appends `n` in decimal.
fn push_decimal(out: &mut String, n: u128)
    ensures
        final(out)@ == old(out)@ + decimal(n as nat),
    decreases n,
{
    if n >= 10 {
        push_decimal(out, n / 10);
    }
    let d = (n % 10) as u8;
    let c = (d + 48u8) as char;
    assert(c == digit_char((n % 10) as nat));
    push_char(out, c);
    assert(final(out)@ =~= old(out)@ + decimal(n as nat));
}

proof fn lemma_roll_sum_bound(rolls: Seq<usize>)
    ensures
        roll_sum(rolls) <= rolls.len() * (usize::MAX as nat),
    decreases rolls.len(),
{
    if rolls.len() > 0 {
        lemma_roll_sum_bound(rolls.drop_last());
    }
}

/// The sum of the rolls, exactly.
pub fn sum_rolls(rolls: &Vec<usize>) -> (r: u128)
    ensures
        r == roll_sum(rolls@),
{
    let mut total: u128 = 0;
    let mut i: usize = 0;
    while i < rolls.len()
        invariant
            i <= rolls@.len(),
            total == roll_sum(rolls@.take(i as int)),
        decreases rolls@.len() - i,
    {
        assert(rolls@.take(i + 1).drop_last() =~= rolls@.take(i as int));
        proof {
            lemma_roll_sum_bound(rolls@.take(i + 1));
            let k = (i + 1) as int;
            let m = usize::MAX as int;
            assert(k * m <= m * m) by (nonlinear_arith)
                requires
                    k <= m,
                    0 <= k,
            ;
            assert(m * m <= u128::MAX) by (nonlinear_arith)
                requires
                    0 <= m <= 0xffff_ffff_ffff_ffff,
            ;
        }
        total = total + rolls[i] as u128;
        i = i + 1;
    }
    assert(rolls@.take(rolls@.len() as int) =~= rolls@);
    total
}

/// Writes the report block of one rolled request.
pub fn format_roll(number: usize, sides: usize, rolls: &Vec<usize>) -> (r: String)
    ensures
        r@ == block_text(number, sides, rolls@),
{
    let mut out = String::new();
    push_decimal(&mut out, number as u128);
    push_char(&mut out, 'd');
    push_decimal(&mut out, sides as u128);
    out.append(":\n\t");
    let mut i: usize = 0;
    let ghost head = out@;
    while i < rolls.len()
        invariant
            i <= rolls@.len(),
            out@ == head + rolls_line(rolls@.take(i as int)),
        decreases rolls@.len() - i,
    {
        assert(rolls@.take(i + 1).drop_last() =~= rolls@.take(i as int));
        push_decimal(&mut out, rolls[i] as u128);
        out.append(", ");
        i = i + 1;
    }
    assert(rolls@.take(rolls@.len() as int) =~= rolls@);
    out.append("\nTotal: ");
    let s = sum_rolls(rolls);
    push_decimal(&mut out, s);
    out.append("\n---\n");
    assert(out@ =~= block_text(number, sides, rolls@));
    out
}

/// Writes the report of the tokens, where `rolls[i]` holds the rolls made for
/// `tokens[i]`: the block of each rolled token in order, then the grand total.
pub fn report(tokens: &Vec<TokenType>, rolls: &Vec<Vec<usize>>) -> (r: String)
    requires
        tokens@.len() == rolls@.len(),
    ensures
        r@ == report_text(tokens@, views(rolls@)),
{
    let mut out = String::new();
    let mut total: u128 = 0;
    let mut i: usize = 0;
    while i < tokens.len()
        invariant
            i <= tokens@.len() == rolls@.len(),
            out@ == blocks_text(tokens@.take(i as int), views(rolls@).take(i as int)),
            total == capped_total(tokens@.take(i as int), views(rolls@).take(i as int)),
        decreases tokens@.len() - i,
    {
        let ghost ts = tokens@.take(i + 1);
        let ghost rs = views(rolls@).take(i + 1);
        assert(ts.drop_last() =~= tokens@.take(i as int));
        assert(rs.drop_last() =~= views(rolls@).take(i as int));
        assert(rs.last() == rolls@[i as int]@);
        match tokens[i] {
            TokenType::DiceCode { number, sides } => {
                if sides >= 1 {
                    let block = format_roll(number, sides, &rolls[i]);
                    out.append(block.as_str());
                    let s = sum_rolls(&rolls[i]);
                    total = match total.checked_add(s) {
                        Some(t) => t,
                        None => u128::MAX,
                    };
                }
            },
            TokenType::BadToken => {},
        }
        assert(out@ =~= blocks_text(ts, rs));
        i = i + 1;
    }
    assert(tokens@.take(tokens@.len() as int) =~= tokens@);
    assert(views(rolls@).take(rolls@.len() as int) =~= views(rolls@));
    out.append("Total roll:");
    push_decimal(&mut out, total);
    out.append("\n");
    out
}

/// Reads the arguments as dice notation, rolls every request that has faces,
/// and writes the report. Whatever the dice show, the text is the report of
/// one outcome that fits the requests.
pub fn run(args: &Vec<String>, rng: &mut ThreadRng) -> (r: String)
    ensures
        exists|rolls: Seq<Seq<usize>>|
            rolls_fit_tokens(tokens_of(args@), rolls) && r@ == #[trigger] report_text(
                tokens_of(args@),
                rolls,
            ),
{
    let tokens = tokenize(args);
    assert(tokens@ =~= tokens_of(args@));
    let rolls = roll_all(&tokens, rng);
    report(&tokens, &rolls)
}

} // verus!
