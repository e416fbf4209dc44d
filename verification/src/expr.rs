//! The expression compiler: turns expression text into a reusable compiled
//! form (through `fasteval`) and evaluates it on a pair of point indices.
//!
//! The numeric evaluation itself happens inside the `fasteval` crate and is
//! abstracted by the two names [`parses`] and [`eval_of`]: `fasteval`'s
//! parser, compiler and evaluator are deterministic functions of the
//! expression text and the two bindings, so the outcome of a compilation or
//! an evaluation is a pure function of those arguments.

use vstd::prelude::*;

use fasteval::Compiler;
use fasteval::Evaler;

verus! {

/// Whether `fasteval` accepts `text` as a well-formed expression
/// (parse and compile succeed).
pub uninterp spec fn parses(text: Seq<char>) -> bool;

/// The outcome of evaluating the compiled form of `text` with the variable
/// `a` bound to the point index `a` and `b` bound to `b`:
/// `None` when evaluation fails (for example on an undefined variable),
/// `Some(t)` when it yields a number, where `t` is that number's truthiness
/// (non-zero and not NaN). Transcendental builtins go through the platform's
/// math library, so the outcome is a function of these arguments on a given
/// platform; the contracts here rely only on determinism within one run.
pub uninterp spec fn eval_of(text: Seq<char>, a: int, b: int) -> Option<bool>;

#[verifier::external_type_specification]
#[verifier::external_body]
pub struct ExSlab(fasteval::Slab);

#[verifier::external_type_specification]
#[verifier::external_body]
pub struct ExInstruction(fasteval::Instruction);

/// An expression compiled once and evaluated many times.
///
/// The `slab` and `instr` fields are always the result of compiling `text`:
/// [`compile`] is the only constructor, so the contracts of the evaluation
/// wrappers may speak of the compiled form through the text alone.
pub struct CompiledExpr {
    text: String,
    slab: fasteval::Slab,
    instr: fasteval::Instruction,
}

impl View for CompiledExpr {
    type V = Seq<char>;

    closed spec fn view(&self) -> Seq<char> {
        self.text@
    }
}

/// Relies on `fasteval::Parser::parse` and `fasteval::Compiler::compile`:
/// both are deterministic in the expression text, they return an error
/// exactly when the text is not a well-formed expression, and they never
/// panic (over-long or over-deep input is reported as an error).
#[verifier::external_body]
fn compile_parts(text: &str) -> (r: Result<(fasteval::Slab, fasteval::Instruction), String>)
    ensures
        r is Ok <==> parses(text@),
{
    let mut slab = fasteval::Slab::new();
    match fasteval::Parser::new().parse(text, &mut slab.ps) {
        Ok(ei) => {
            let instr = ei.from(&slab.ps).compile(&slab.ps, &mut slab.cs);
            Ok((slab, instr))
        },
        Err(e) => Err(format!("{}", e)),
    }
}

/// Compile expression text into a reusable evaluable form.
///
/// Succeeds exactly when the text is a well-formed expression; on failure the
/// error carries a human-readable description of the parse error.
pub fn compile(text: String) -> (r: Result<CompiledExpr, String>)
    ensures
        r is Ok <==> parses(text@),
        r matches Ok(c) ==> c@ == text@,
{
    match compile_parts(text.as_str()) {
        Ok((slab, instr)) => Ok(CompiledExpr { text, slab, instr }),
        Err(m) => Err(m),
    }
}

/// Relies on `fasteval::Parser::parse` and `fasteval::Compiler::compile`
/// being deterministic in the text: compiling the stored text again yields a
/// compiled form with the same meaning, held in a fresh slab that shares no
/// state with `c`'s. The parse cannot fail here — the same text already
/// compiled when `c` was built — so the fallback arm is never reached.
#[verifier::external_body]
pub(crate) fn recompile(c: &CompiledExpr) -> (r: CompiledExpr)
    ensures
        r@ == c@,
{
    let mut slab = fasteval::Slab::new();
    let instr = match fasteval::Parser::new().parse(&c.text, &mut slab.ps) {
        Ok(ei) => ei.from(&slab.ps).compile(&slab.ps, &mut slab.cs),
        Err(_) => fasteval::Instruction::default(),
    };
    CompiledExpr { text: c.text.clone(), slab, instr }
}

/// Relies on `fasteval::Evaler::eval`, which is deterministic in the compiled
/// expression and the variable bindings and never panics (an expression that
/// uses fasteval's `print` builtin also writes to standard error; the
/// contract is silent on that side effect). The numeric result cannot cross
/// into verified code, so it is collapsed to its truthiness: non-zero (of
/// either sign) and not NaN. The bindings are built through `fasteval`'s own
/// namespace type; a `u16` converts to a 64-bit float exactly.
#[verifier::external_body]
pub(crate) fn eval_truthy(c: &CompiledExpr, a: u16, b: u16) -> (r: Result<bool, String>)
    ensures
        match eval_of(c@, a as int, b as int) {
            Some(t) => r matches Ok(rt) && rt == t,
            None => r is Err,
        },
{
    let mut ns: fasteval::StrToF64Namespace = std::collections::BTreeMap::new();
    ns.insert("a", a.into());
    ns.insert("b", b.into());
    match c.instr.eval(&c.slab, &mut ns) {
        Ok(v) => Ok(!v.is_nan() && (v.to_bits() << 1) != 0),
        Err(e) => Err(format!("{}", e)),
    }
}

/// Whether the expression text is usable: it compiles, and evaluating it on a
/// sample pair of point indices (1 and 2) does not fail.
pub fn expression_status(expr: String) -> (r: Option<()>)
    ensures
        r is Some <==> parses(expr@) && eval_of(expr@, 1, 2) is Some,
{
    match compile(expr) {
        Err(_) => None,
        Ok(c) => match eval_truthy(&c, 1, 2) {
            Err(_) => None,
            Ok(_) => Some(()),
        },
    }
}

} // verus!
