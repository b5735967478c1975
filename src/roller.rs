use rand::rngs::ThreadRng;
use rand::Rng;
use crate::token::TokenType;
use vstd::prelude::*;

verus! {

#[verifier::external_type_specification]
#[verifier::external_body]
pub struct ExThreadRng(ThreadRng);

/// `rolls` is one outcome of rolling `number` dice of `sides` faces: one value
/// per die, each a face.
pub open spec fn rolls_fit(number: usize, sides: usize, rolls: Seq<usize>) -> bool {
    &&& rolls.len() == number
    &&& forall|i: int| 0 <= i < rolls.len() ==> 1 <= #[trigger] rolls[i] <= sides
}

/// Relies on rand::Rng::gen_range over `lo..=hi`: a value of that closed
/// range, which it panics on only when the range is empty.
#[verifier::external_body]
fn draw(rng: &mut ThreadRng, lo: usize, hi: usize) -> (r: usize)
    requires
        lo <= hi,
    ensures
        lo <= r <= hi,
{
    rng.gen_range(lo..=hi)
}

/// Rolls `number` dice of `sides` faces. A die with no faces cannot be
/// rolled: that request gives `None`.
pub fn roll(number: usize, sides: usize, rng: &mut ThreadRng) -> (r: Option<Vec<usize>>)
    ensures
        r is None <==> sides == 0,
        r matches Some(v) ==> rolls_fit(number, sides, v@),
        number == 0 && sides >= 1 ==> (r matches Some(v) && v@ == Seq::<usize>::empty()),
{
    if sides == 0 {
        return None;
    }
    let mut v: Vec<usize> = Vec::new();
    let mut i: usize = 0;
    while i < number
        invariant
            1 <= sides,
            i <= number,
            rolls_fit(i as usize, sides, v@),
        decreases number - i,
    {
        let x = draw(rng, 1, sides);
        v.push(x);
        i = i + 1;
    }
    proof {
        if number == 0 {
            assert(v@ =~= Seq::<usize>::empty());
        }
    }
    Some(v)
}

/// A token that asks for dice with at least one face.
pub open spec fn rolled(t: TokenType) -> bool {
    t matches TokenType::DiceCode { sides, .. } && sides >= 1
}

/// `rolls[i]` is an outcome of the request of `tokens[i]`, and empty for a
/// token that is not rolled.
pub open spec fn rolls_fit_tokens(tokens: Seq<TokenType>, rolls: Seq<Seq<usize>>) -> bool {
    &&& rolls.len() == tokens.len()
    &&& forall|i: int|
        0 <= i < tokens.len() ==> match #[trigger] tokens[i] {
            TokenType::DiceCode { number, sides } => if sides >= 1 {
                rolls_fit(number, sides, rolls[i])
            } else {
                rolls[i].len() == 0
            },
            TokenType::BadToken => rolls[i].len() == 0,
        }
}

/// Rolls the dice of each token in order; tokens that are not rolled get no rolls.
pub fn roll_all(tokens: &Vec<TokenType>, rng: &mut ThreadRng) -> (r: Vec<Vec<usize>>)
    ensures
        rolls_fit_tokens(tokens@, r@.map_values(|v: Vec<usize>| v@)),
{
    let mut r: Vec<Vec<usize>> = Vec::new();
    let mut i: usize = 0;
    while i < tokens.len()
        invariant
            i <= tokens@.len(),
            r@.len() == i,
            rolls_fit_tokens(tokens@.take(i as int), r@.map_values(|v: Vec<usize>| v@)),
        decreases tokens@.len() - i,
    {
        let rs = match tokens[i] {
            TokenType::DiceCode { number, sides } => match roll(number, sides, rng) {
                Some(v) => v,
                None => Vec::new(),
            },
            TokenType::BadToken => Vec::new(),
        };
        let ghost before = r@.map_values(|v: Vec<usize>| v@);
        r.push(rs);
        assert(r@.map_values(|v: Vec<usize>| v@) =~= before.push(rs@));
        assert(tokens@.take(i + 1) =~= tokens@.take(i as int).push(tokens@[i as int]));
        i = i + 1;
    }
    assert(tokens@.take(tokens@.len() as int) =~= tokens@);
    r
}

} // verus!
