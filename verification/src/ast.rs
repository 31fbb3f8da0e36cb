//! The abstract syntax tree and its mathematical model.

use vstd::prelude::*;

verus! {

/// One Brainfuck instruction.  `Loop` owns its nested body, in source
/// order, so a program is a strict tree.
#[derive(Debug, PartialEq, Eq)]
pub enum Bf {
    NextCell,
    PrevCell,
    Incr,
    Decr,
    Out,
    In,
    Loop(Vec<Bf>),
}

/// Mathematical mirror of `Bf`: a loop body is a `Seq`, so contracts can
/// speak of whole trees by value.
pub enum Ast {
    MoveRight,
    MoveLeft,
    Increment,
    Decrement,
    Output,
    Input,
    Loop(Seq<Ast>),
}

impl Bf {
    /// The tree this node stands for, with every `Vec` replaced by a `Seq`.
    pub open spec fn deep_view(self) -> Ast
        decreases self,
    {
        match self {
            Bf::NextCell => Ast::MoveRight,
            Bf::PrevCell => Ast::MoveLeft,
            Bf::Incr => Ast::Increment,
            Bf::Decr => Ast::Decrement,
            Bf::Out => Ast::Output,
            Bf::In => Ast::Input,
            Bf::Loop(body) => Ast::Loop(
                Seq::new(
                    body@.len(),
                    |i: int|
                        if 0 <= i < body@.len() {
                            body@[i].deep_view()
                        } else {
                            Ast::MoveRight
                        },
                ),
            ),
        }
    }
}

/// Elementwise `deep_view` of a program.
pub open spec fn deep_view_seq(v: Seq<Bf>) -> Seq<Ast> {
    Seq::new(v.len(), |i: int| v[i].deep_view())
}

/// The canonical character form of one instruction.
pub open spec fn serial(a: Ast) -> Seq<char>
    decreases a, 0int,
{
    match a {
        Ast::MoveRight => seq!['>'],
        Ast::MoveLeft => seq!['<'],
        Ast::Increment => seq!['+'],
        Ast::Decrement => seq!['-'],
        Ast::Output => seq!['.'],
        Ast::Input => seq![','],
        Ast::Loop(body) => seq!['['] + serial_from(body, 0) + seq![']'],
    }
}

/// The canonical character form of the instructions of `s` from index `i` on.
pub open spec fn serial_from(s: Seq<Ast>, i: int) -> Seq<char>
    decreases s, s.len() - i,
{
    if 0 <= i < s.len() {
        serial(s[i]) + serial_from(s, i + 1)
    } else {
        Seq::empty()
    }
}

/// The canonical character form of a whole program.
pub open spec fn serial_seq(s: Seq<Ast>) -> Seq<char> {
    serial_from(s, 0)
}

/// Dropping the head of a program shifts `serial_from` by one index.
proof fn lemma_serial_from_shift(a: Ast, rest: Seq<Ast>, k: int)
    requires
        0 <= k <= rest.len(),
    ensures
        serial_from(seq![a] + rest, k + 1) == serial_from(rest, k),
    decreases rest.len() - k,
{
    let q = seq![a] + rest;
    if k < rest.len() {
        lemma_serial_from_shift(a, rest, k + 1);
        assert(q[k + 1] == rest[k]);
    }
}

/// Rendering a program renders its head, then the rest.
pub proof fn lemma_serial_cons(a: Ast, rest: Seq<Ast>)
    ensures
        serial_seq(seq![a] + rest) == serial(a) + serial_seq(rest),
{
    let q = seq![a] + rest;
    assert(q[0] == a);
    lemma_serial_from_shift(a, rest, 0);
}

/// Append the canonical character form of one instruction to `out`.
fn write_inst(out: &mut String, inst: &Bf)
    ensures
        final(out)@ == old(out)@ + serial(inst.deep_view()),
    decreases inst,
{
    match inst {
        Bf::NextCell => {
            proof {
                reveal_strlit(">");
                assert(">"@ =~= seq!['>']);
            }
            out.append(">");
        },
        Bf::PrevCell => {
            proof {
                reveal_strlit("<");
                assert("<"@ =~= seq!['<']);
            }
            out.append("<");
        },
        Bf::Incr => {
            proof {
                reveal_strlit("+");
                assert("+"@ =~= seq!['+']);
            }
            out.append("+");
        },
        Bf::Decr => {
            proof {
                reveal_strlit("-");
                assert("-"@ =~= seq!['-']);
            }
            out.append("-");
        },
        Bf::Out => {
            proof {
                reveal_strlit(".");
                assert("."@ =~= seq!['.']);
            }
            out.append(".");
        },
        Bf::In => {
            proof {
                reveal_strlit(",");
                assert(","@ =~= seq![',']);
            }
            out.append(",");
        },
        Bf::Loop(body) => {
            let ghost start = out@;
            let ghost bv = deep_view_seq(body@);
            proof {
                reveal_strlit("[");
                reveal_strlit("]");
                assert("["@ =~= seq!['[']);
                assert("]"@ =~= seq![']']);
                assert(inst.deep_view() matches Ast::Loop(w) && w =~= bv);
            }
            out.append("[");
            let mut k: usize = 0;
            while k < body.len()
                invariant
                    *inst == Bf::Loop(*body),
                    k <= body.len(),
                    bv == deep_view_seq(body@),
                    (out@ + serial_from(bv, k as int)) + seq![']'] == start + serial(
                        Ast::Loop(bv),
                    ),
                decreases body.len() - k,
            {
                proof {
                    assert(decreases_to!(*inst => body@[k as int])) by {
                        assert(*inst == Bf::Loop(*body));
                        assert(decreases_to!(*inst => inst->Loop_0));
                        assert(decreases_to!(*body => body@));
                        assert(decreases_to!(body@ => body@[k as int]));
                    }
                    assert(bv[k as int] == body@[k as int].deep_view());
                    let pre = out@;
                    assert((pre + serial(bv[k as int])) + serial_from(bv, k + 1) =~= pre
                        + serial_from(bv, k as int));
                }
                write_inst(out, &body[k]);
                k = k + 1;
            }
            proof {
                assert(out@ + serial_from(bv, k as int) =~= out@);
            }
            out.append("]");
        },
    }
}

/// Render a program to its canonical source text: each instruction in
/// order, a loop as `[`, its body, `]`.
pub fn to_source(prog: &Vec<Bf>) -> (r: String)
    ensures
        r@ == serial_seq(deep_view_seq(prog@)),
{
    let ghost pv = deep_view_seq(prog@);
    let mut out = String::new();
    let mut k: usize = 0;
    while k < prog.len()
        invariant
            k <= prog.len(),
            pv == deep_view_seq(prog@),
            out@ + serial_from(pv, k as int) == serial_seq(pv),
        decreases prog.len() - k,
    {
        proof {
            assert(pv[k as int] == prog@[k as int].deep_view());
            let pre = out@;
            assert((pre + serial(pv[k as int])) + serial_from(pv, k + 1) =~= pre + serial_from(
                pv,
                k as int,
            ));
        }
        write_inst(&mut out, &prog[k]);
        k = k + 1;
    }
    proof {
        assert(out@ + serial_from(pv, k as int) =~= out@);
    }
    out
}

} // verus!
