//! Syntax errors and their rendering as human-readable diagnostics.

use vstd::prelude::*;

verus! {

/// What the parser expected at the offending position.
#[derive(Debug, PartialEq, Eq)]
pub enum SyntaxErrorKind {
    /// An expression (`S`, `K` or a parenthesised group) was expected, but
    /// another character, or the end of the input, stood there.
    ExpectedItem,
    /// A group opened at this position is never closed by a `)`.
    UnclosedGroup,
    /// A `)` at this position closes a group that holds no expression.
    EmptyGroup,
}

/// A parse failure: the offending character position (in characters, from 0;
/// equal to the input length when the input ended too early) and what was
/// expected there.
#[derive(Debug, PartialEq, Eq)]
pub struct SyntaxError {
    pub pos: usize,
    pub kind: SyntaxErrorKind,
}

/// The decimal digit characters of `n`, most significant first.
pub open spec fn spec_decimal(n: nat) -> Seq<char>
    decreases n,
{
    if n < 10 {
        seq![digit_char(n)]
    } else {
        spec_decimal(n / 10) + seq![digit_char(n % 10)]
    }
}

/// The character for a single decimal digit.
pub open spec fn digit_char(d: nat) -> char {
    if d == 0 {
        '0'
    } else if d == 1 {
        '1'
    } else if d == 2 {
        '2'
    } else if d == 3 {
        '3'
    } else if d == 4 {
        '4'
    } else if d == 5 {
        '5'
    } else if d == 6 {
        '6'
    } else if d == 7 {
        '7'
    } else if d == 8 {
        '8'
    } else {
        '9'
    }
}

/// Append the decimal digits of `n` to `out`.
fn push_decimal(out: &mut String, n: usize)
    ensures
        final(out)@ == old(out)@ + spec_decimal(n as nat),
    decreases n,
{
    if n >= 10 {
        proof {
            assert(n / 10 < n) by (nonlinear_arith)
                requires
                    n >= 10,
            ;
        }
        push_decimal(out, n / 10);
    }
    let d = n % 10;
    match d {
        0 => {
            out.append("0");
            proof {
                reveal_strlit("0");
            }
        },
        1 => {
            out.append("1");
            proof {
                reveal_strlit("1");
            }
        },
        2 => {
            out.append("2");
            proof {
                reveal_strlit("2");
            }
        },
        3 => {
            out.append("3");
            proof {
                reveal_strlit("3");
            }
        },
        4 => {
            out.append("4");
            proof {
                reveal_strlit("4");
            }
        },
        5 => {
            out.append("5");
            proof {
                reveal_strlit("5");
            }
        },
        6 => {
            out.append("6");
            proof {
                reveal_strlit("6");
            }
        },
        7 => {
            out.append("7");
            proof {
                reveal_strlit("7");
            }
        },
        8 => {
            out.append("8");
            proof {
                reveal_strlit("8");
            }
        },
        _ => {
            out.append("9");
            proof {
                reveal_strlit("9");
            }
        },
    }
    proof {
        assert((*out)@ =~= old(out)@ + spec_decimal(n as nat));
    }
}

/// What the diagnostic says after the position, for each kind of error.
pub open spec fn spec_kind_suffix(k: SyntaxErrorKind) -> Seq<char> {
    match k {
        SyntaxErrorKind::ExpectedItem => ": expected 'S', 'K' or '('"@,
        SyntaxErrorKind::UnclosedGroup => ": the group opened here is never closed by ')'"@,
        SyntaxErrorKind::EmptyGroup => ": ')' closes a group that holds no expression"@,
    }
}

/// The rendered diagnostic of an error: its position in decimal, then what
/// was expected there.
pub open spec fn spec_message(e: SyntaxError) -> Seq<char> {
    "syntax error at character "@ + spec_decimal(e.pos as nat) + spec_kind_suffix(e.kind)
}

impl SyntaxError {
    /// Render the error as a diagnostic naming the offending position and
    /// what was expected there.
    pub fn message(&self) -> (r: String)
        ensures
            r@ == spec_message(*self),
            r@.len() > 0,
    {
        let mut r = "syntax error at character ".to_owned();
        proof {
            reveal_strlit("syntax error at character ");
        }
        push_decimal(&mut r, self.pos);
        match self.kind {
            SyntaxErrorKind::ExpectedItem => {
                r.append(": expected 'S', 'K' or '('");
            },
            SyntaxErrorKind::UnclosedGroup => {
                r.append(": the group opened here is never closed by ')'");
            },
            SyntaxErrorKind::EmptyGroup => {
                r.append(": ')' closes a group that holds no expression");
            },
        }
        proof {
            assert(r@ =~= spec_message(*self));
        }
        r
    }
}

} // verus!
