//! The parser: a mathematical definition of the grammar, the executable
//! recursive-descent parser proved against it, and the round-trip laws.

use vstd::prelude::*;
use crate::ast::{Ast, Bf, deep_view_seq, lemma_serial_cons, serial, serial_from, serial_seq};

verus! {

/// Why a parse failed.
#[derive(Debug, PartialEq, Eq, Clone, Copy)]
pub enum ParseError {
    /// A character that no grammar rule can begin with in its context;
    /// this includes a `]` with no open loop.
    InvalidCharacter,
    /// The input ended while at least one loop was still open.
    UnterminatedLoop,
}

/// The six characters that map to a single non-loop instruction.
pub open spec fn is_simple(c: char) -> bool {
    c == '>' || c == '<' || c == '+' || c == '-' || c == '.' || c == ','
}

/// The instruction a simple character stands for.
pub open spec fn simple_ast(c: char) -> Ast {
    if c == '>' {
        Ast::MoveRight
    } else if c == '<' {
        Ast::MoveLeft
    } else if c == '+' {
        Ast::Increment
    } else if c == '-' {
        Ast::Decrement
    } else if c == '.' {
        Ast::Output
    } else {
        Ast::Input
    }
}

/// How one run of the grammar at a given nesting level ends: either the
/// instructions parsed together with the index the run stopped at (the
/// end of the input or an unconsumed `]`), or the first failure.
pub enum ParseStep {
    Stopped(Seq<Ast>, int),
    Failed(ParseError),
}

/// The grammar itself: parse instructions from index `i` of `s` until the
/// input ends or a `]` belonging to an enclosing loop appears.  A `[`
/// opens a nested run, which must stop on a `]`, or the loop is
/// unterminated.
pub open spec fn parse_at(s: Seq<char>, i: int) -> ParseStep
    decreases s.len() - i,
{
    if !(0 <= i < s.len()) {
        ParseStep::Stopped(Seq::empty(), i)
    } else if s[i] == ']' {
        ParseStep::Stopped(Seq::empty(), i)
    } else if is_simple(s[i]) {
        match parse_at(s, i + 1) {
            ParseStep::Stopped(rest, j) => ParseStep::Stopped(seq![simple_ast(s[i])] + rest, j),
            f => f,
        }
    } else if s[i] == '[' {
        match parse_at(s, i + 1) {
            ParseStep::Stopped(body, j) => {
                if i < j && j < s.len() && s[j] == ']' {
                    match parse_at(s, j + 1) {
                        ParseStep::Stopped(rest, k) => ParseStep::Stopped(
                            seq![Ast::Loop(body)] + rest,
                            k,
                        ),
                        f => f,
                    }
                } else {
                    ParseStep::Failed(ParseError::UnterminatedLoop)
                }
            },
            f => f,
        }
    } else {
        ParseStep::Failed(ParseError::InvalidCharacter)
    }
}

/// What parsing a whole input means: the top-level run must consume all
/// of `s`.  A run that stops early stands on a stray `]`, which no rule
/// can consume there.
pub open spec fn parse_spec(s: Seq<char>) -> Result<Seq<Ast>, ParseError> {
    match parse_at(s, 0) {
        ParseStep::Stopped(prog, j) => if j == s.len() {
            Ok(prog)
        } else {
            Err(ParseError::InvalidCharacter)
        },
        ParseStep::Failed(e) => Err(e),
    }
}

/// Instructions already parsed, put in front of however the rest of the
/// run ends.
pub open spec fn prepend_step(pre: Seq<Ast>, st: ParseStep) -> ParseStep {
    match st {
        ParseStep::Stopped(rest, j) => ParseStep::Stopped(pre + rest, j),
        ParseStep::Failed(e) => ParseStep::Failed(e),
    }
}

/// One run of the grammar at one nesting level, starting at `start`.
/// Returns the instructions of the run and the index it stopped at,
/// exactly as `parse_at` describes.
fn parse_run(input: &str, start: usize) -> (r: Result<(Vec<Bf>, usize), ParseError>)
    requires
        start <= input@.len(),
    ensures
        match r {
            Ok(p) => {
                &&& start <= p.1 <= input@.len()
                &&& parse_at(input@, start as int) == ParseStep::Stopped(
                    deep_view_seq(p.0@),
                    p.1 as int,
                )
            },
            Err(e) => parse_at(input@, start as int) == ParseStep::Failed(e),
        },
    decreases input@.len() - start,
{
    let ghost s = input@;
    let len = input.unicode_len();
    let mut items: Vec<Bf> = Vec::new();
    let mut i = start;
    loop
        invariant
            s == input@,
            len == s.len(),
            start <= i <= len,
            parse_at(s, start as int) == prepend_step(
                deep_view_seq(items@),
                parse_at(s, i as int),
            ),
        decreases len - i,
    {
        if i == len {
            proof {
                assert(deep_view_seq(items@) + Seq::<Ast>::empty() =~= deep_view_seq(items@));
            }
            return Ok((items, i));
        }
        let c = input.get_char(i);
        if c == ']' {
            proof {
                assert(deep_view_seq(items@) + Seq::<Ast>::empty() =~= deep_view_seq(items@));
            }
            return Ok((items, i));
        } else if c == '>' || c == '<' || c == '+' || c == '-' || c == '.' || c == ',' {
            let inst = if c == '>' {
                Bf::NextCell
            } else if c == '<' {
                Bf::PrevCell
            } else if c == '+' {
                Bf::Incr
            } else if c == '-' {
                Bf::Decr
            } else if c == '.' {
                Bf::Out
            } else {
                Bf::In
            };
            proof {
                let pre = deep_view_seq(items@);
                let a = simple_ast(s[i as int]);
                assert(inst.deep_view() == a);
                assert(deep_view_seq(items@.push(inst)) =~= pre + seq![a]);
                match parse_at(s, i + 1) {
                    ParseStep::Stopped(rest, j) => {
                        assert(pre + (seq![a] + rest) =~= (pre + seq![a]) + rest);
                    },
                    ParseStep::Failed(_) => {},
                }
            }
            items.push(inst);
            i = i + 1;
        } else if c == '[' {
            match parse_run(input, i + 1) {
                Err(e) => {
                    return Err(e);
                },
                Ok((body, j)) => {
                    let close = if j < len { input.get_char(j) } else { ' ' };
                    if j < len && close == ']' {
                        proof {
                            let pre = deep_view_seq(items@);
                            let bv = deep_view_seq(body@);
                            let a = Ast::Loop(bv);
                            assert(Bf::Loop(body).deep_view() matches Ast::Loop(w) && w =~= bv);
                            assert(deep_view_seq(items@.push(Bf::Loop(body))) =~= pre + seq![a]);
                            match parse_at(s, j + 1) {
                                ParseStep::Stopped(rest, k) => {
                                    assert(pre + (seq![a] + rest) =~= (pre + seq![a]) + rest);
                                },
                                ParseStep::Failed(_) => {},
                            }
                        }
                        items.push(Bf::Loop(body));
                        i = j + 1;
                    } else {
                        return Err(ParseError::UnterminatedLoop);
                    }
                },
            }
        } else {
            return Err(ParseError::InvalidCharacter);
        }
    }
}

/// A run that stops, stops at the end of the input or on a `]`, and the
/// instructions it produced render back, character for character, to
/// exactly the slice of the input it consumed.
pub proof fn lemma_parse_at_serial(s: Seq<char>, i: int)
    requires
        0 <= i <= s.len(),
    ensures
        match parse_at(s, i) {
            ParseStep::Stopped(p, j) => {
                &&& i <= j <= s.len()
                &&& (j == s.len() || s[j] == ']')
                &&& serial_seq(p) == s.subrange(i, j)
            },
            ParseStep::Failed(_) => true,
        },
    decreases s.len() - i,
{
    if i == s.len() {
        assert(serial_seq(Seq::<Ast>::empty()) =~= s.subrange(i, i));
    } else if s[i] == ']' {
        assert(serial_seq(Seq::<Ast>::empty()) =~= s.subrange(i, i));
    } else if is_simple(s[i]) {
        lemma_parse_at_serial(s, i + 1);
        match parse_at(s, i + 1) {
            ParseStep::Stopped(rest, j) => {
                lemma_serial_cons(simple_ast(s[i]), rest);
                assert(serial(simple_ast(s[i])) == seq![s[i]]);
                assert(seq![s[i]] + s.subrange(i + 1, j) =~= s.subrange(i, j));
            },
            ParseStep::Failed(_) => {},
        }
    } else if s[i] == '[' {
        lemma_parse_at_serial(s, i + 1);
        match parse_at(s, i + 1) {
            ParseStep::Stopped(body, j) => {
                if i < j && j < s.len() && s[j] == ']' {
                    lemma_parse_at_serial(s, j + 1);
                    match parse_at(s, j + 1) {
                        ParseStep::Stopped(rest, k) => {
                            lemma_serial_cons(Ast::Loop(body), rest);
                            assert(serial(Ast::Loop(body)) == (seq!['['] + s.subrange(
                                i + 1,
                                j,
                            )) + seq![']']);
                            assert((seq!['['] + s.subrange(i + 1, j)) + seq![']'] =~= s.subrange(
                                i,
                                j + 1,
                            ));
                            assert(s.subrange(i, j + 1) + s.subrange(j + 1, k) =~= s.subrange(
                                i,
                                k,
                            ));
                        },
                        ParseStep::Failed(_) => {},
                    }
                }
            },
            ParseStep::Failed(_) => {},
        }
    }
}

/// Each of the six simple characters, alone, parses to the one-element
/// program of its instruction.
pub proof fn lemma_parse_single_char(c: char)
    requires
        is_simple(c),
    ensures
        parse_spec(seq![c]) == Ok::<Seq<Ast>, ParseError>(seq![simple_ast(c)]),
{
    let s = seq![c];
    assert(parse_at(s, 1) == ParseStep::Stopped(Seq::<Ast>::empty(), 1));
    assert(seq![simple_ast(c)] + Seq::<Ast>::empty() =~= seq![simple_ast(c)]);
}

/// The replay guarantee: a program that parses from `s` renders back to
/// `s` itself, character for character.
pub proof fn lemma_parse_replay(s: Seq<char>, prog: Seq<Ast>)
    requires
        parse_spec(s) == Ok::<Seq<Ast>, ParseError>(prog),
    ensures
        serial_seq(prog) == s,
{
    lemma_parse_at_serial(s, 0);
    assert(s.subrange(0, s.len() as int) =~= s);
}

/// The round trip: rendering a parsed program and parsing the rendering
/// gives the very same program back.
pub proof fn lemma_parse_serialize_round_trip(s: Seq<char>, prog: Seq<Ast>)
    requires
        parse_spec(s) == Ok::<Seq<Ast>, ParseError>(prog),
    ensures
        parse_spec(serial_seq(prog)) == Ok::<Seq<Ast>, ParseError>(prog),
{
    lemma_parse_replay(s, prog);
}

/// Parse a whole Brainfuck source text.
///
/// Succeeds exactly when the mathematical parser does, and then the
/// returned program is, node for node, the tree that the grammar gives
/// for `input`, whose rendering replays `input` exactly; on failure it
/// reports the same error.
pub fn parse_bf(input: &str) -> (r: Result<Vec<Bf>, ParseError>)
    ensures
        match r {
            Ok(prog) => parse_spec(input@) == Ok::<Seq<Ast>, ParseError>(deep_view_seq(prog@)),
            Err(e) => parse_spec(input@) == Err::<Seq<Ast>, ParseError>(e),
        },
        r matches Ok(prog) ==> serial_seq(deep_view_seq(prog@)) == input@,
{
    let len = input.unicode_len();
    match parse_run(input, 0) {
        Err(e) => Err(e),
        Ok((prog, end)) => {
            if end == len {
                proof {
                    lemma_parse_replay(input@, deep_view_seq(prog@));
                }
                Ok(prog)
            } else {
                Err(ParseError::InvalidCharacter)
            }
        },
    }
}

} // verus!
