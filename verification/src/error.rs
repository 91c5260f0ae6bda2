//! The error of a sampler that cannot be built.

use vstd::prelude::*;

verus! {

/// The parameters that a builder refused: with them, the variables and the
/// constraints do not offer the same number of edge ends.
#[derive(Debug, PartialEq, Eq, Clone, Copy, Hash, Structural)]
pub struct InvalidParameters {
    pub number_of_variables: usize,
    pub number_of_constraints: usize,
    pub variable_degree: usize,
    pub constraint_degree: usize,
}

/// The character of a decimal digit.
pub open spec fn digit(value: nat) -> char {
    if value == 0 {
        '0'
    } else if value == 1 {
        '1'
    } else if value == 2 {
        '2'
    } else if value == 3 {
        '3'
    } else if value == 4 {
        '4'
    } else if value == 5 {
        '5'
    } else if value == 6 {
        '6'
    } else if value == 7 {
        '7'
    } else if value == 8 {
        '8'
    } else {
        '9'
    }
}

/// A number in decimal notation, without leading zeros.
pub open spec fn decimal(number: nat) -> Seq<char>
    decreases number,
{
    if number < 10 {
        seq![digit(number)]
    } else {
        decimal(number / 10).push(digit(number % 10))
    }
}

fn digit_text(value: usize) -> (text: &'static str)
    requires
        value < 10,
    ensures
        text@ == seq![digit(value as nat)],
{
    proof {
        reveal_strlit("0");
        reveal_strlit("1");
        reveal_strlit("2");
        reveal_strlit("3");
        reveal_strlit("4");
        reveal_strlit("5");
        reveal_strlit("6");
        reveal_strlit("7");
        reveal_strlit("8");
        reveal_strlit("9");
    }
    let text = match value {
        0 => "0",
        1 => "1",
        2 => "2",
        3 => "3",
        4 => "4",
        5 => "5",
        6 => "6",
        7 => "7",
        8 => "8",
        _ => "9",
    };
    assert(text@ =~= seq![digit(value as nat)]);
    text
}

fn append_decimal(text: &mut String, number: usize)
    ensures
        final(text)@ == old(text)@ + decimal(number as nat),
    decreases number,
{
    if number >= 10 {
        append_decimal(text, number / 10);
    }
    text.append(digit_text(number % 10));
    assert(text@ =~= old(text)@ + decimal(number as nat));
}

impl InvalidParameters {
    /// What the error says, as a sequence of characters.
    pub open spec fn message(self) -> Seq<char> {
        "can't sample a graph with "@ + decimal(self.number_of_variables as nat)
            + " variables of degree "@ + decimal(self.variable_degree as nat) + " and "@ + decimal(
            self.number_of_constraints as nat,
        ) + " constraints of degree "@ + decimal(self.constraint_degree as nat)
    }

    /// Says which parameters were refused.
    pub fn to_string(&self) -> (text: String)
        ensures
            text@ == self.message(),
    {
        let mut text = String::from_str("can't sample a graph with ");
        append_decimal(&mut text, self.number_of_variables);
        text.append(" variables of degree ");
        append_decimal(&mut text, self.variable_degree);
        text.append(" and ");
        append_decimal(&mut text, self.number_of_constraints);
        text.append(" constraints of degree ");
        append_decimal(&mut text, self.constraint_degree);
        assert(text@ =~= self.message());
        text
    }
}

} // verus!
