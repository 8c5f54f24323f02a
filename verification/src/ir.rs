//! Plain-data picture of a compiled module: functions, basic blocks,
//! instructions, call sites and their source attributions.

use vstd::prelude::*;

verus! {

/// A source attribution point: file name and 1-based line number.
pub struct FileLine {
    pub filename: String,
    pub line: u32,
}

/// The source locations attached to a call site: its direct location and,
/// when the call was inlined, the location of the outer call that caused
/// the inlining. Both are independent attribution points.
pub struct DebugInfo {
    pub direct: Option<FileLine>,
    pub inlined_at: Option<FileLine>,
}

/// A callee operand: either resolved to the function at the given index of
/// the module's function table, or anything else (an indirect call or an
/// unresolved symbol).
pub enum Value {
    Function(usize),
    Other,
}

/// A call instruction: its callee operand and its source locations, if any.
pub struct CallInstr {
    pub callee: Value,
    pub debug: Option<DebugInfo>,
}

/// An instruction is either a call or anything else.
pub enum Instr {
    Call(CallInstr),
    Other,
}

/// A basic block: a sequence of instructions.
pub struct BasicBlock {
    pub instrs: Vec<Instr>,
}

/// A function: its mangled name and the basic blocks of its body.
pub struct Function {
    pub name: String,
    pub blocks: Vec<BasicBlock>,
}

/// A compiled module: the table of its functions. Call instructions refer
/// to their callees by index into this table.
pub struct Module {
    pub fns: Vec<Function>,
}

/// The version of the toolchain that produced or reads the module.
pub struct Version {
    pub major: u32,
    pub minor: u32,
    pub patch: u32,
}

/// A call instruction is well formed when its resolved callee, if any, is
/// an index into the module's function table of size `n`.
pub open spec fn instr_wf(instr: Instr, n: int) -> bool {
    match instr {
        Instr::Call(c) => match c.callee {
            Value::Function(g) => g < n,
            Value::Other => true,
        },
        Instr::Other => true,
    }
}

/// Every call of the module resolves within the module's function table.
pub open spec fn module_wf(m: Module) -> bool {
    forall|f: int, b: int, i: int|
        0 <= f < m.fns@.len() && 0 <= b < m.fns@[f].blocks@.len() && 0 <= i
            < m.fns@[f].blocks@[b].instrs@.len() ==> instr_wf(
            #[trigger] m.fns@[f].blocks@[b].instrs@[i],
            m.fns@.len() as int,
        )
}

/// Decides whether every call of the module resolves within its function
/// table: the executable counterpart of `module_wf`, for callers that
/// build a module from outside data and must test it before analysis.
pub fn module_wf_check(m: &Module) -> (r: bool)
    ensures
        r == module_wf(*m),
{
    let n = m.fns.len();
    let mut f: usize = 0;
    while f < n
        invariant
            n == m.fns@.len(),
            0 <= f <= n,
            forall|f2: int, b2: int, i2: int|
                0 <= f2 < f && 0 <= b2 < m.fns@[f2].blocks@.len() && 0 <= i2
                    < m.fns@[f2].blocks@[b2].instrs@.len() ==> instr_wf(
                    #[trigger] m.fns@[f2].blocks@[b2].instrs@[i2],
                    n as int,
                ),
        decreases n - f,
    {
        let fun = &m.fns[f];
        let nb = fun.blocks.len();
        let mut b: usize = 0;
        while b < nb
            invariant
                n == m.fns@.len(),
                0 <= f < n,
                *fun == m.fns@[f as int],
                nb == m.fns@[f as int].blocks@.len(),
                0 <= b <= nb,
                forall|f2: int, b2: int, i2: int|
                    0 <= f2 < f && 0 <= b2 < m.fns@[f2].blocks@.len() && 0 <= i2
                        < m.fns@[f2].blocks@[b2].instrs@.len() ==> instr_wf(
                        #[trigger] m.fns@[f2].blocks@[b2].instrs@[i2],
                        n as int,
                    ),
                forall|b2: int, i2: int|
                    0 <= b2 < b && 0 <= i2 < m.fns@[f as int].blocks@[b2].instrs@.len()
                        ==> instr_wf(#[trigger] m.fns@[f as int].blocks@[b2].instrs@[i2], n as int),
            decreases nb - b,
        {
            let block = &fun.blocks[b];
            let ni = block.instrs.len();
            let mut i: usize = 0;
            while i < ni
                invariant
                    n == m.fns@.len(),
                    0 <= f < n,
                    *fun == m.fns@[f as int],
                    nb == m.fns@[f as int].blocks@.len(),
                    0 <= b < nb,
                    *block == m.fns@[f as int].blocks@[b as int],
                    ni == m.fns@[f as int].blocks@[b as int].instrs@.len(),
                    0 <= i <= ni,
                    forall|f2: int, b2: int, i2: int|
                        0 <= f2 < f && 0 <= b2 < m.fns@[f2].blocks@.len() && 0 <= i2
                            < m.fns@[f2].blocks@[b2].instrs@.len() ==> instr_wf(
                            #[trigger] m.fns@[f2].blocks@[b2].instrs@[i2],
                            n as int,
                        ),
                    forall|b2: int, i2: int|
                        0 <= b2 < b && 0 <= i2 < m.fns@[f as int].blocks@[b2].instrs@.len()
                            ==> instr_wf(
                            #[trigger] m.fns@[f as int].blocks@[b2].instrs@[i2],
                            n as int,
                        ),
                    forall|i2: int|
                        0 <= i2 < i ==> instr_wf(
                            #[trigger] m.fns@[f as int].blocks@[b as int].instrs@[i2],
                            n as int,
                        ),
                decreases ni - i,
            {
                let ok = match &block.instrs[i] {
                    Instr::Call(c) => match &c.callee {
                        Value::Function(g) => *g < n,
                        Value::Other => true,
                    },
                    Instr::Other => true,
                };
                if !ok {
                    proof {
                        assert(!instr_wf(
                            m.fns@[f as int].blocks@[b as int].instrs@[i as int],
                            n as int,
                        ));
                    }
                    return false;
                }
                i += 1;
            }
            b += 1;
        }
        f += 1;
    }
    true
}

/// Builds a source attribution from raw debug metadata values. A location
/// whose file name is empty and whose line is zero carries no information
/// and yields no attribution point.
pub fn file_line(filename: String, line: u32) -> (r: Option<FileLine>)
    ensures
        filename@.len() == 0 && line == 0 ==> r is None,
        !(filename@.len() == 0 && line == 0) ==> r == Some(FileLine { filename, line }),
{
    if filename.as_str().is_empty() && line == 0 {
        None
    } else {
        Some(FileLine { filename, line })
    }
}

} // verus!
