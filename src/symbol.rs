//! The alphabet of the turtle and the validation of a word.

use vstd::prelude::*;

verus! {

/// One command of the turtle.
#[derive(Clone, Copy, Debug, PartialEq, Eq, Structural)]
pub enum Symbol {
    /// `F`: draw a segment and move to its end.
    Forward,
    /// `+`: turn clockwise.
    TurnRight,
    /// `-`: turn counter-clockwise.
    TurnLeft,
    /// `[`: save the turtle and go one branch deeper.
    Push,
    /// `]`: restore the last saved turtle, if there is one.
    Pop,
}

/// Why a word was rejected.
#[derive(Clone, Copy, Debug, PartialEq, Eq, Structural)]
pub enum InterpretError {
    /// The word holds a character outside the alphabet; it is the first such one.
    InvalidSymbol(char),
}

pub open spec fn is_symbol_char(c: char) -> bool {
    c == 'F' || c == '+' || c == '-' || c == '[' || c == ']'
}

/// The command that a character of the alphabet stands for.
pub open spec fn symbol_of(c: char) -> Symbol {
    if c == 'F' {
        Symbol::Forward
    } else if c == '+' {
        Symbol::TurnRight
    } else if c == '-' {
        Symbol::TurnLeft
    } else if c == '[' {
        Symbol::Push
    } else {
        Symbol::Pop
    }
}

pub open spec fn all_symbols(s: Seq<char>) -> bool {
    forall|i: int| 0 <= i < s.len() ==> is_symbol_char(#[trigger] s[i])
}

/// `i` is the position of the first character of `s` outside the alphabet.
pub open spec fn is_first_invalid(s: Seq<char>, i: int) -> bool {
    &&& 0 <= i < s.len()
    &&& !is_symbol_char(s[i])
    &&& forall|j: int| 0 <= j < i ==> is_symbol_char(#[trigger] s[j])
}

/// The commands of a word that lies in the alphabet.
pub open spec fn symbols_of(s: Seq<char>) -> Seq<Symbol> {
    s.map_values(|c: char| symbol_of(c))
}

/// The result of validating `s`: its commands, or the first character outside the alphabet.
pub open spec fn validation(s: Seq<char>) -> Result<Seq<Symbol>, InterpretError> {
    if all_symbols(s) {
        Ok(symbols_of(s))
    } else {
        Err(InterpretError::InvalidSymbol(s[choose|i: int| is_first_invalid(s, i)]))
    }
}

/// There is exactly one first invalid position in a word that leaves the alphabet.
pub proof fn lemma_first_invalid_unique(s: Seq<char>, i: int, j: int)
    requires
        is_first_invalid(s, i),
        is_first_invalid(s, j),
    ensures
        i == j,
{
    if i < j {
        assert(is_symbol_char(s[i]));
    } else if j < i {
        assert(is_symbol_char(s[j]));
    }
}

/// The command for one character, or `None` outside the alphabet.
pub fn parse_symbol(c: char) -> (r: Option<Symbol>)
    ensures
        r == (if is_symbol_char(c) { Some(symbol_of(c)) } else { None::<Symbol> }),
{
    match c {
        'F' => Some(Symbol::Forward),
        '+' => Some(Symbol::TurnRight),
        '-' => Some(Symbol::TurnLeft),
        '[' => Some(Symbol::Push),
        ']' => Some(Symbol::Pop),
        _ => None,
    }
}

/// Checks the whole word before anything runs, and gives its commands in order.
pub fn parse_symbols(s: &str) -> (r: Result<Vec<Symbol>, InterpretError>)
    ensures
        match r {
            Ok(v) => validation(s@) == Ok::<Seq<Symbol>, InterpretError>(v@),
            Err(e) => validation(s@) == Err::<Seq<Symbol>, InterpretError>(e),
        },
{
    let mut out: Vec<Symbol> = Vec::new();
    for c in it: s.chars()
        invariant
            it.seq() == s@,
            out@ == symbols_of(s@.take(it.index() as int)),
            all_symbols(s@.take(it.index() as int)),
    {
        let ghost k = it.index() as int;
        match parse_symbol(c) {
            Some(sym) => {
                out.push(sym);
                assert(s@.take(k + 1) =~= s@.take(k).push(c));
                assert(symbols_of(s@.take(k + 1)) =~= symbols_of(s@.take(k)).push(sym));
            },
            None => {
                proof {
                    assert(is_first_invalid(s@, k)) by {
                        assert forall|j: int| 0 <= j < k implies is_symbol_char(#[trigger] s@[j]) by {
                            assert(s@.take(k)[j] == s@[j]);
                        }
                    }
                    let i = choose|i: int| is_first_invalid(s@, i);
                    lemma_first_invalid_unique(s@, i, k);
                }
                return Err(InterpretError::InvalidSymbol(c));
            },
        }
    }
    assert(s@.take(s@.len() as int) =~= s@);
    Ok(out)
}

} // verus!
