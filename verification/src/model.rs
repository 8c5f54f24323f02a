//! A functional model of one analysis run. The executable analysis is
//! proved to compute exactly this model, and the library's laws are stated
//! over it: the sticky line merge, the memoized cycle-safe classification,
//! and the full pass over a module.

use crate::analysis::{spec_is_panic_root, DataFile, LineStatus};
use crate::ir::{DebugInfo, FileLine, Instr, Module, Value};
use vstd::prelude::*;

verus! {

/// The line table recorded for one source file: the file's name and the
/// status of each of its lines (index 0 is reserved; lines are 1-based).
#[verifier::ext_equal]
pub ghost struct FileRep {
    pub name: Seq<char>,
    pub lines: Seq<LineStatus>,
}

/// The mutable state of one analysis run: the memoized classification per
/// function index, and the per-file line tables in creation order.
#[verifier::ext_equal]
pub ghost struct AState {
    pub memo: Seq<Option<bool>>,
    pub files: Seq<FileRep>,
}

/// How many slots of the in-progress set are free.
pub open spec fn num_free(ip: Seq<bool>) -> nat
    decreases ip.len(),
{
    if ip.len() == 0 {
        0
    } else {
        num_free(ip.drop_last()) + if ip.last() {
            0nat
        } else {
            1nat
        }
    }
}

/// Marking a free slot of the in-progress set strictly shrinks the number
/// of free slots.
pub proof fn lemma_num_free_update(ip: Seq<bool>, f: int)
    requires
        0 <= f < ip.len(),
        !ip[f],
    ensures
        num_free(ip.update(f, true)) < num_free(ip),
    decreases ip.len(),
{
    let upd = ip.update(f, true);
    if f == ip.len() - 1 {
        assert(upd.drop_last() =~= ip.drop_last());
    } else {
        assert(upd.drop_last() =~= ip.drop_last().update(f, true));
        assert(upd.last() == ip.last());
        lemma_num_free_update(ip.drop_last(), f);
    }
}

/// The sticky merge rule for one line: Panic is never downgraded; below
/// that, a panicky call site records Panic and any other records NoPanic.
pub open spec fn s_line_merge(old_status: LineStatus, panicky: bool) -> LineStatus {
    if old_status is Panic {
        LineStatus::Panic
    } else if panicky {
        LineStatus::Panic
    } else {
        LineStatus::NoPanic
    }
}

/// Grows a line table so that `line` is a valid index, filling the new
/// slots with `NotInBinary`.
pub open spec fn s_grow(lines: Seq<LineStatus>, line: int) -> Seq<LineStatus> {
    if line < lines.len() {
        lines
    } else {
        lines + Seq::new((line + 1 - lines.len()) as nat, |j: int| LineStatus::NotInBinary)
    }
}

/// One annotation of one line of one file's table: grow, then merge.
pub open spec fn s_update_lines(lines: Seq<LineStatus>, line: int, panicky: bool) -> Seq<
    LineStatus,
> {
    let grown = s_grow(lines, line);
    grown.update(line, s_line_merge(grown[line], panicky))
}

/// The index of the first table recorded for `name`, or `files.len()` when
/// there is none.
pub open spec fn file_index_of(files: Seq<FileRep>, name: Seq<char>) -> int
    decreases files.len(),
{
    if files.len() == 0 {
        0
    } else if files[0].name == name {
        0
    } else {
        1 + file_index_of(files.drop_first(), name)
    }
}

/// `file_index_of` finds exactly the first table recorded for `name`.
pub proof fn lemma_file_index_of(files: Seq<FileRep>, name: Seq<char>)
    ensures
        0 <= file_index_of(files, name) <= files.len(),
        forall|j: int| 0 <= j < file_index_of(files, name) ==> files[j].name != name,
        file_index_of(files, name) < files.len() ==> files[file_index_of(files, name)].name
            == name,
    decreases files.len(),
{
    if files.len() > 0 && files[0].name != name {
        let rest = files.drop_first();
        lemma_file_index_of(rest, name);
        let k = file_index_of(files, name);
        assert forall|j: int| 0 <= j < k implies files[j].name != name by {
            if j > 0 {
                assert(rest[j - 1] == files[j]);
            }
        }
        if k < files.len() {
            assert(rest[k - 1] == files[k]);
        }
    }
}

/// Any index below which every recorded name differs from `name`, and at
/// which (if it is a real index) the recorded name is `name`, is exactly
/// the first-match index.
pub proof fn lemma_index_of_pinpoint(files: Seq<FileRep>, name: Seq<char>, k: int)
    requires
        0 <= k <= files.len(),
        forall|j: int| 0 <= j < k ==> files[j].name != name,
        k < files.len() ==> files[k].name == name,
    ensures
        file_index_of(files, name) == k,
{
    lemma_file_index_of(files, name);
    let k2 = file_index_of(files, name);
    if k2 < k {
        assert(files[k2].name != name);
    } else if k < k2 {
        assert(files[k].name != name);
    }
}

/// Records one annotation in the per-file tables: look up or create the
/// table for `name`, then annotate `line` under the sticky merge rule.
pub open spec fn s_set_panic_line(
    files: Seq<FileRep>,
    name: Seq<char>,
    line: int,
    panicky: bool,
) -> Seq<FileRep> {
    let files1 = if file_index_of(files, name) < files.len() {
        files
    } else {
        files.push(FileRep { name: name, lines: Seq::empty() })
    };
    let k = file_index_of(files1, name);
    files1.update(k, FileRep { name: name, lines: s_update_lines(files1[k].lines, line, panicky) })
}

/// The recorded status of one (file, line) pair: `NotInBinary` unless a
/// table for the file exists and covers the line.
pub open spec fn s_line_status(files: Seq<FileRep>, name: Seq<char>, line: int) -> LineStatus {
    let k = file_index_of(files, name);
    if k < files.len() && 0 <= line < files[k].lines.len() {
        files[k].lines[line]
    } else {
        LineStatus::NotInBinary
    }
}

/// An attribution point is applied only when its line number is 1-based
/// (line 0 carries no information and index 0 of every table is reserved)
/// and representable as a table index; otherwise it is skipped entirely.
pub open spec fn s_apply_loc(files: Seq<FileRep>, fl: FileLine, panicky: bool) -> Seq<FileRep> {
    if 1 <= fl.line && fl.line + 1 <= usize::MAX {
        s_set_panic_line(files, fl.filename@, fl.line as int, panicky)
    } else {
        files
    }
}

/// Applies both attribution points of a call site, the direct location
/// first and the inlined-at location second.
pub open spec fn s_apply_debug(
    files: Seq<FileRep>,
    debug: Option<DebugInfo>,
    panicky: bool,
) -> Seq<FileRep> {
    match debug {
        Some(di) => {
            let files1 = match di.direct {
                Some(fl) => s_apply_loc(files, fl, panicky),
                None => files,
            };
            match di.inlined_at {
                Some(fl) => s_apply_loc(files1, fl, panicky),
                None => files1,
            }
        },
        None => files,
    }
}

/// The classification of one function. A function whose classification is
/// already in progress is conservatively not panicky (the cycle breaker);
/// otherwise it is marked in progress and classified through the memo.
///
/// Because the cycle breaker answers for whichever function entered the
/// cycle first, the recorded classification of functions inside a cycle
/// that never reaches a memoized panic root depends on traversal order.
/// That is a known, intentional property of the analysis, not an accident
/// of this model.
pub open spec fn s_fn_is_panicky(m: Module, st: AState, ip: Seq<bool>, f: int) -> (bool, AState)
    decreases num_free(ip), 0int, 0int, 0int,
        when 0 <= f < ip.len()
{
    if ip[f] {
        (false, st)
    } else {
        proof {
            lemma_num_free_update(ip, f);
        }
        s_pika(m, st, ip.update(f, true), f)
    }
}

/// Memoized classification: a hit returns the recorded answer; a miss
/// computes the answer from the function and records it permanently.
pub open spec fn s_pika(m: Module, st: AState, ip: Seq<bool>, f: int) -> (bool, AState)
    decreases num_free(ip), 5int, 0int, 0int,
        when 0 <= f < ip.len()
{
    match st.memo[f] {
        Some(b) => (b, st),
        None => {
            let (r, st1) = s_impl(m, st, ip, f);
            (r, AState { memo: st1.memo.update(f, Some(r)), files: st1.files })
        },
    }
}

/// Classification from the function itself: a panic root is panicky
/// regardless of its body; any other function is panicky exactly when some
/// call site of its body is.
pub open spec fn s_impl(m: Module, st: AState, ip: Seq<bool>, f: int) -> (bool, AState)
    decreases num_free(ip), 4int, 0int, 0int,
        when 0 <= f < ip.len()
{
    if spec_is_panic_root(m.fns@[f].name@) {
        (true, st)
    } else {
        s_body(m, st, ip, f, 0, 0, false)
    }
}

/// Walks the body of function `f` from block `b`, instruction `i` on,
/// classifying and annotating each instruction in order and accumulating
/// whether any call site so far was panicky.
pub open spec fn s_body(
    m: Module,
    st: AState,
    ip: Seq<bool>,
    f: int,
    b: int,
    i: int,
    acc: bool,
) -> (bool, AState)
    decreases
            num_free(ip),
            3int,
            m.fns@[f].blocks@.len() - b,
            m.fns@[f].blocks@[b].instrs@.len() - i,
        when 0 <= f < ip.len() && 0 <= b && 0 <= i
{
    if b >= m.fns@[f].blocks@.len() {
        (acc, st)
    } else if i >= m.fns@[f].blocks@[b].instrs@.len() {
        s_body(m, st, ip, f, b + 1, 0, acc)
    } else {
        let (r, st1) = s_do_instr(m, st, ip, m.fns@[f].blocks@[b].instrs@[i]);
        s_body(m, st1, ip, f, b, i + 1, r || acc)
    }
}

/// Processes one instruction: classifies it and, for a call site, applies
/// both of its attribution points with that classification.
pub open spec fn s_do_instr(m: Module, st: AState, ip: Seq<bool>, instr: Instr) -> (bool, AState)
    decreases num_free(ip), 2int, 0int, 0int,
{
    let (p, st1) = s_call_class(m, st, ip, instr);
    match instr {
        Instr::Call(c) => (
            p,
            AState { memo: st1.memo, files: s_apply_debug(st1.files, c.debug, p) },
        ),
        Instr::Other => (p, st1),
    }
}

/// The classification of one instruction: a call whose callee resolves to
/// a function of the module is as panicky as that function; every other
/// instruction, and a call whose callee does not resolve, is not panicky.
pub open spec fn s_call_class(m: Module, st: AState, ip: Seq<bool>, instr: Instr) -> (bool, AState)
    decreases num_free(ip), 1int, 0int, 0int,
{
    match instr {
        Instr::Call(c) => match c.callee {
            Value::Function(g) => s_fn_is_panicky(m, st, ip, g as int),
            Value::Other => (false, st),
        },
        Instr::Other => (false, st),
    }
}

/// The memo table before any function was classified.
pub open spec fn init_memo(n: nat) -> Seq<Option<bool>> {
    Seq::new(n, |j: int| None)
}

/// The in-progress set with every slot free.
pub open spec fn init_ip(n: nat) -> Seq<bool> {
    Seq::new(n, |j: int| false)
}

/// The state before any function was classified.
pub open spec fn init_state(n: nat) -> AState {
    AState { memo: init_memo(n), files: Seq::empty() }
}

/// One full pass: classifies every function of the module in table order
/// from index `f` on, each query starting with an empty in-progress set.
pub open spec fn s_run(m: Module, st: AState, f: int) -> AState
    decreases m.fns@.len() - f,
{
    if f < 0 || f >= m.fns@.len() {
        st
    } else {
        s_run(m, s_fn_is_panicky(m, st, init_ip(m.fns@.len()), f).1, f + 1)
    }
}

/// The final state of a full analysis of the module.
pub open spec fn s_analyze(m: Module) -> AState {
    s_run(m, init_state(m.fns@.len()), 0)
}

/// The abstract view of the per-file tables held by the analysis state.
pub open spec fn data_files_view(files: Seq<(String, DataFile)>) -> Seq<FileRep> {
    files.map_values(|p: (String, DataFile)| FileRep { name: p.0@, lines: p.1.lines@ })
}

/// The character-sequence views of a sequence of strings.
pub open spec fn strings_view(v: Seq<String>) -> Seq<Seq<char>> {
    v.map_values(|s: String| s@)
}

} // verus!
