//! Text forms of a formula.
use vstd::prelude::*;

use crate::function::{Function, Term};
use crate::param::{alphabet, param_name_at, PARAMETERS_AMOUNT};

verus! {

/// The decimal digits of `n`.
pub open spec fn decimal(n: nat) -> Seq<char>
    decreases n,
{
    if n < 10 {
        seq![((48 + n) as u8) as char]
    } else {
        decimal(n / 10).push(((48 + n % 10) as u8) as char)
    }
}

/// `x` raised to the `i`-th power: nothing, `x`, or `x^i`.
pub open spec fn power_of_x(i: nat) -> Seq<char> {
    if i == 0 {
        Seq::empty()
    } else if i == 1 {
        "x"@
    } else {
        "x^"@ + decimal(i)
    }
}

/// The `i`-th term of a polynomial, divided by `i!` in the series form.
pub open spec fn poly_term(i: nat, series: bool) -> Seq<char> {
    let t = seq![alphabet()[i as int]] + power_of_x(i);
    if series {
        t + "/"@ + decimal(i) + "!"@
    } else {
        t
    }
}

/// The terms up to the `d`-th, joined by ` + `.
pub open spec fn poly_text(d: nat, series: bool) -> Seq<char>
    decreases d,
{
    if d == 0 {
        poly_term(0, series)
    } else {
        poly_text((d - 1) as nat, series) + " + "@ + poly_term(d, series)
    }
}

/// The sign of a two-child node, with its spaces.
pub open spec fn infix(t: Term) -> Seq<char> {
    match t {
        Term::Add(_, _) => " + "@,
        Term::Sub(_, _) => " - "@,
        Term::Mul(_, _) => " * "@,
        _ => " / "@,
    }
}

/// The name by which a one-child function is called, with its bracket.
pub open spec fn call_name(t: Term) -> Seq<char> {
    match t {
        Term::Exp(_) => "exp("@,
        Term::Ln(_) => "ln("@,
        Term::Sqrt(_) => "sqrt("@,
        Term::Sin(_) => "sin("@,
        Term::Cos(_) => "cos("@,
        _ => "tan("@,
    }
}

/// The display form: every operation in brackets, so that the parser
/// reads it back.
pub open spec fn display(t: Term) -> Seq<char>
    decreases t,
{
    match t {
        Term::X => "x"@,
        Term::Const(s) => s,
        Term::Zero => "0"@,
        Term::One => "1"@,
        Term::Param(c) => seq![c],
        Term::Neg(v) => "(-"@ + display(*v) + ")"@,
        Term::Sq(v) => "("@ + display(*v) + ")^2"@,
        Term::Exp(v) | Term::Ln(v) | Term::Sqrt(v) | Term::Sin(v) | Term::Cos(v) | Term::Tan(v) =>
            call_name(t) + display(*v) + ")"@,
        Term::Pow(l, r) => "("@ + display(*l) + ")^("@ + display(*r) + ")"@,
        Term::Add(l, r) | Term::Sub(l, r) | Term::Mul(l, r) | Term::Div(l, r) => "("@ + display(
            *l,
        ) + infix(t) + display(*r) + ")"@,
        Term::Polynomial(d) => poly_text(d, false),
        Term::BtrPolynomial(d) => poly_text(d, true),
    }
}

/// The plotting form: as the display form, but a negation without
/// brackets, `\sqrt{..}` for a root and `(..)^{..}` for a power.
pub open spec fn plot(t: Term) -> Seq<char>
    decreases t,
{
    match t {
        Term::Neg(v) => "-"@ + plot(*v),
        Term::Sq(v) => "("@ + plot(*v) + ")^2"@,
        Term::Sqrt(v) => "\\sqrt{"@ + plot(*v) + "}"@,
        Term::Exp(v) | Term::Ln(v) | Term::Sin(v) | Term::Cos(v) | Term::Tan(v) => call_name(t)
            + plot(*v) + ")"@,
        Term::Pow(l, r) => "("@ + plot(*l) + ")^{"@ + plot(*r) + "}"@,
        Term::Add(l, r) | Term::Sub(l, r) | Term::Mul(l, r) | Term::Div(l, r) => "("@ + plot(*l)
            + infix(t) + plot(*r) + ")"@,
        _ => display(t),
    }
}

/// Appends the digits of `n`.
fn push_decimal(out: &mut String, n: usize)
    ensures
        final(out)@ == old(out)@ + decimal(n as nat),
    decreases n,
{
    if n >= 10 {
        push_decimal(out, n / 10);
    }
    let d = (48 + n % 10) as u8;
    out.push(d as char);
    assert(final(out)@ =~= old(out)@ + decimal(n as nat));
}

/// Appends the `i`-th term of a polynomial.
fn push_poly_term(out: &mut String, i: usize, series: bool)
    requires
        i < PARAMETERS_AMOUNT,
    ensures
        final(out)@ == old(out)@ + poly_term(i as nat, series),
{
    out.push(param_name_at(i));
    if i == 1 {
        out.append("x");
    } else if i >= 2 {
        out.append("x^");
        push_decimal(out, i);
    }
    if series {
        out.append("/");
        push_decimal(out, i);
        out.append("!");
    }
    assert(final(out)@ =~= old(out)@ + poly_term(i as nat, series));
}

/// Appends the terms of a polynomial of degree `d`.
fn push_poly(out: &mut String, d: usize, series: bool)
    requires
        d < PARAMETERS_AMOUNT,
    ensures
        final(out)@ == old(out)@ + poly_text(d as nat, series),
{
    let ghost start = out@;
    push_poly_term(out, 0, series);
    let mut i: usize = 1;
    while i <= d
        invariant
            d < PARAMETERS_AMOUNT,
            1 <= i <= d + 1,
            out@ == start + poly_text((i - 1) as nat, series),
        decreases d + 1 - i,
    {
        out.append(" + ");
        push_poly_term(out, i, series);
        assert(out@ =~= start + poly_text(i as nat, series));
        i += 1;
    }
}

impl Function {
    /// Appends the display form.
    fn push_display(&self, out: &mut String)
        requires
            self@.wf(),
        ensures
            final(out)@ == old(out)@ + display(self@),
        decreases self,
    {
        let ghost t = self@;
        match self {
            Function::X => out.append("x"),
            Function::Const { value } => out.append(value.as_str()),
            Function::Zero => out.append("0"),
            Function::One => out.append("1"),
            Function::Param { name } => out.push(*name),
            Function::Neg { value } => {
                out.append("(-");
                value.push_display(out);
                out.append(")");
            },
            Function::Sq { value } => {
                out.append("(");
                value.push_display(out);
                out.append(")^2");
            },
            Function::Exp { value }
            | Function::Ln { value }
            | Function::Sqrt { value }
            | Function::Sin { value }
            | Function::Cos { value }
            | Function::Tan { value } => {
                out.append(
                    match self {
                        Function::Exp { .. } => "exp(",
                        Function::Ln { .. } => "ln(",
                        Function::Sqrt { .. } => "sqrt(",
                        Function::Sin { .. } => "sin(",
                        Function::Cos { .. } => "cos(",
                        _ => "tan(",
                    },
                );
                value.push_display(out);
                out.append(")");
            },
            Function::Pow { lhs, rhs } => {
                out.append("(");
                lhs.push_display(out);
                out.append(")^(");
                rhs.push_display(out);
                out.append(")");
            },
            Function::Add { lhs, rhs }
            | Function::Sub { lhs, rhs }
            | Function::Mul { lhs, rhs }
            | Function::Div { lhs, rhs } => {
                out.append("(");
                lhs.push_display(out);
                out.append(
                    match self {
                        Function::Add { .. } => " + ",
                        Function::Sub { .. } => " - ",
                        Function::Mul { .. } => " * ",
                        _ => " / ",
                    },
                );
                rhs.push_display(out);
                out.append(")");
            },
            Function::Polynomial { degree } => push_poly(out, *degree, false),
            Function::BtrPolynomial { degree } => push_poly(out, *degree, true),
        }
        assert(final(out)@ =~= old(out)@ + display(t));
    }

    /// Appends the plotting form.
    fn push_plot(&self, out: &mut String)
        requires
            self@.wf(),
        ensures
            final(out)@ == old(out)@ + plot(self@),
        decreases self,
    {
        let ghost t = self@;
        match self {
            Function::Neg { value } => {
                out.append("-");
                value.push_plot(out);
            },
            Function::Sq { value } => {
                out.append("(");
                value.push_plot(out);
                out.append(")^2");
            },
            Function::Sqrt { value } => {
                out.append("\\sqrt{");
                value.push_plot(out);
                out.append("}");
            },
            Function::Exp { value }
            | Function::Ln { value }
            | Function::Sin { value }
            | Function::Cos { value }
            | Function::Tan { value } => {
                out.append(
                    match self {
                        Function::Exp { .. } => "exp(",
                        Function::Ln { .. } => "ln(",
                        Function::Sin { .. } => "sin(",
                        Function::Cos { .. } => "cos(",
                        _ => "tan(",
                    },
                );
                value.push_plot(out);
                out.append(")");
            },
            Function::Pow { lhs, rhs } => {
                out.append("(");
                lhs.push_plot(out);
                out.append(")^{");
                rhs.push_plot(out);
                out.append("}");
            },
            Function::Add { lhs, rhs }
            | Function::Sub { lhs, rhs }
            | Function::Mul { lhs, rhs }
            | Function::Div { lhs, rhs } => {
                out.append("(");
                lhs.push_plot(out);
                out.append(
                    match self {
                        Function::Add { .. } => " + ",
                        Function::Sub { .. } => " - ",
                        Function::Mul { .. } => " * ",
                        _ => " / ",
                    },
                );
                rhs.push_plot(out);
                out.append(")");
            },
            _ => self.push_display(out),
        }
        assert(final(out)@ =~= old(out)@ + plot(t));
    }

    /// The plotting form: as the display form, but a negation without
    /// brackets, `\sqrt{..}` for a root and `(..)^{..}` for a power.
    pub fn to_plot_string(&self) -> (r: String)
        requires
            self@.wf(),
        ensures
            r@ == plot(self@),
    {
        let mut out = String::new();
        self.push_plot(&mut out);
        assert(out@ =~= plot(self@));
        out
    }

    /// The display form: every operation in brackets, so that
    /// [`Function::from_str`] reads it back.
    pub fn to_display_string(&self) -> (r: String)
        requires
            self@.wf(),
        ensures
            r@ == display(self@),
    {
        let mut out = String::new();
        self.push_display(&mut out);
        assert(out@ =~= display(self@));
        out
    }
}

} // verus!
