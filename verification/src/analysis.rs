//! The reachability analysis: memoized, cycle-safe classification of every
//! function as panic-reaching or not, and the per-line annotation table
//! with its sticky merge rule. Every function here is proved to compute
//! exactly the functional model of `crate::model`.

use crate::ir::{instr_wf, module_wf, FileLine, Instr, Module, Value};
use crate::model::{
    data_files_view, file_index_of, init_ip, init_memo, init_state, lemma_file_index_of,
    lemma_num_free_update, num_free, s_analyze, s_apply_loc, s_body, s_call_class, s_do_instr,
    s_fn_is_panicky, s_grow, s_impl, s_line_status, s_pika, s_run, s_set_panic_line,
    s_update_lines, AState, FileRep,
};
use vstd::prelude::*;

verus! {

/// The status recorded for one source line.
#[derive(Clone, Copy, Debug, PartialEq, Eq, Structural)]
pub enum LineStatus {
    /// No call site gave evidence about the line.
    NotInBinary,
    /// Covered by call sites, none of which can reach a panic.
    NoPanic,
    /// Covered by at least one call site that can reach a panic.
    Panic,
}

/// The line-status table of one source file. Index 0 is reserved filler:
/// source lines are 1-based.
#[derive(Debug)]
pub struct DataFile {
    pub lines: Vec<LineStatus>,
}

/// The state of one analysis run: per-file line tables in creation order,
/// the memoized classification per function index, and the set of function
/// indices whose classification is in progress (the cycle guard).
pub struct Data {
    pub files: Vec<(String, DataFile)>,
    pub fns: Vec<Option<bool>>,
    pub in_processing: Vec<bool>,
}

/// The abstract state held by a `Data` value.
pub open spec fn st_of(data: Data) -> AState {
    AState { memo: data.fns@, files: data_files_view(data.files@) }
}

/// The memo table and the cycle guard each hold one slot per function of
/// the module under analysis.
pub open spec fn data_inv(data: Data, n: nat) -> bool {
    data.fns@.len() == n && data.in_processing@.len() == n
}

/// The mangled-name prefix of the runtime's panic-handling entry points.
pub open spec fn panic_root_prefix() -> Seq<char> {
    "_ZN4core9panicking"@
}

/// A function is a panic root exactly when its name begins with the
/// panic-handling namespace prefix.
pub open spec fn spec_is_panic_root(name: Seq<char>) -> bool {
    name.len() >= panic_root_prefix().len() && name.subrange(
        0,
        panic_root_prefix().len() as int,
    ) == panic_root_prefix()
}

/// Decides whether a function name designates a panic root: an entry point
/// of the runtime's panic machinery. Pure and total over the name.
pub fn is_panic_root(name: &str) -> (r: bool)
    ensures
        r == spec_is_panic_root(name@),
{
    let prefix = "_ZN4core9panicking";
    proof {
        reveal_strlit("_ZN4core9panicking");
    }
    let prefix_len = prefix.unicode_len();
    let name_len = name.unicode_len();
    if name_len < prefix_len {
        assert(!spec_is_panic_root(name@));
        return false;
    }
    let mut i: usize = 0;
    while i < prefix_len
        invariant
            0 <= i <= prefix_len,
            prefix_len == panic_root_prefix().len(),
            prefix@ == panic_root_prefix(),
            name@.len() >= prefix_len,
            forall|j: int| 0 <= j < i ==> name@[j] == panic_root_prefix()[j],
        decreases prefix_len - i,
    {
        if name.get_char(i) != prefix.get_char(i) {
            assert(name@.subrange(0, panic_root_prefix().len() as int)[i as int] == name@[i as int]);
            return false;
        }
        i += 1;
    }
    assert(name@.subrange(0, panic_root_prefix().len() as int) =~= panic_root_prefix());
    true
}

/// The index of the first table recorded for `name`, or the table count
/// when there is none: the executable counterpart of `file_index_of`.
fn find_file_idx(files: &Vec<(String, DataFile)>, name: &String) -> (idx: usize)
    ensures
        idx as int == file_index_of(data_files_view(files@), name@),
{
    let ghost fv = data_files_view(files@);
    proof {
        lemma_file_index_of(fv, name@);
    }
    let n = files.len();
    let mut i: usize = 0;
    while i < n
        invariant
            0 <= i <= n,
            n == files@.len(),
            fv == data_files_view(files@),
            forall|j: int| 0 <= j < i ==> fv[j].name != name@,
        decreases n - i,
    {
        let entry = &files[i];
        if entry.0.eq(name) {
            proof {
                lemma_file_index_of(fv, name@);
                assert(fv[i as int].name == name@);
                let k = file_index_of(fv, name@);
                if k < i as int {
                    assert(fv[k].name != name@);
                } else if k > i as int {
                    assert(fv[i as int].name != name@);
                }
            }
            return i;
        }
        assert(fv[i as int].name != name@);
        i += 1;
    }
    proof {
        let k = file_index_of(fv, name@);
        if k < n as int {
            assert(fv[k].name != name@);
        }
    }
    n
}

/// Records one annotation point: looks up or creates the table for the
/// location's file, grows it to cover the line, and merges the call site's
/// classification into the line under the sticky rule.
pub fn set_panic_line(data: &mut Data, info: &FileLine, is_panicky: bool)
    requires
        1 <= info.line,
        info.line as int + 1 <= usize::MAX as int,
    ensures
        final(data).fns@ == old(data).fns@,
        final(data).in_processing@ == old(data).in_processing@,
        data_files_view(final(data).files@) == s_set_panic_line(
            data_files_view(old(data).files@),
            info.filename@,
            info.line as int,
            is_panicky,
        ),
{
    let ghost files0 = data_files_view(old(data).files@);
    proof {
        lemma_file_index_of(files0, info.filename@);
    }
    let idx = find_file_idx(&data.files, &info.filename);
    if idx == data.files.len() {
        data.files.push((info.filename.clone(), DataFile { lines: Vec::new() }));
        proof {
            assert(data_files_view(data.files@) =~= files0.push(
                FileRep { name: info.filename@, lines: Seq::empty() },
            ));
        }
    }
    let ghost files1 = data_files_view(data.files@);
    proof {
        lemma_file_index_of(files1, info.filename@);
        let k = file_index_of(files1, info.filename@);
        if idx as int == files0.len() {
            // a fresh table was appended at index idx; it is the first match
            if k < idx as int {
                assert(files1[k] == files0[k]);
                assert(files0[k].name != info.filename@);
            } else if k > idx as int {
                assert(files1[idx as int].name != info.filename@);
            }
        }
        assert(k == idx as int);
        assert(files1 == if file_index_of(files0, info.filename@) < files0.len() {
            files0
        } else {
            files0.push(FileRep { name: info.filename@, lines: Seq::empty() })
        });
        assert(files1[idx as int].name == info.filename@);
    }
    let line = info.line as usize;
    assert(line as int + 1 <= usize::MAX as int);
    let mut entry = data.files.remove(idx);
    let ghost lines0 = entry.1.lines@;
    proof {
        assert(FileRep { name: entry.0@, lines: entry.1.lines@ } == files1[idx as int]);
    }
    if line >= entry.1.lines.len() {
        while entry.1.lines.len() < line + 1
            invariant
                line as int + 1 <= usize::MAX as int,
                lines0.len() <= entry.1.lines@.len() <= line + 1,
                entry.1.lines@ == lines0 + Seq::new(
                    (entry.1.lines@.len() - lines0.len()) as nat,
                    |j: int| LineStatus::NotInBinary,
                ),
                entry.0@ == info.filename@,
            decreases line + 1 - entry.1.lines@.len(),
        {
            entry.1.lines.push(LineStatus::NotInBinary);
            proof {
                assert(entry.1.lines@ =~= lines0 + Seq::new(
                    (entry.1.lines@.len() - lines0.len()) as nat,
                    |j: int| LineStatus::NotInBinary,
                ));
            }
        }
    }
    proof {
        assert(entry.1.lines@ =~= s_grow(lines0, line as int));
    }
    let ghost grown = entry.1.lines@;
    let keep = match entry.1.lines[line] {
        LineStatus::Panic => true,
        _ => false,
    };
    if !keep {
        entry.1.lines[line] = if is_panicky {
            LineStatus::Panic
        } else {
            LineStatus::NoPanic
        };
    }
    proof {
        assert(entry.1.lines@ =~= s_update_lines(lines0, line as int, is_panicky));
    }
    data.files.insert(idx, entry);
    proof {
        let k = idx as int;
        let target = files1.update(
            k,
            FileRep { name: info.filename@, lines: s_update_lines(files1[k].lines, line as int, is_panicky) },
        );
        assert(data_files_view(data.files@) =~= target);
    }
}

/// Applies one attribution point of a call site: locations with line 0
/// carry no information (and index 0 of every table is reserved), so they
/// are skipped, as is a line too large to index a table.
fn apply_loc(data: &mut Data, fl: &FileLine, panicky: bool)
    ensures
        final(data).fns@ == old(data).fns@,
        final(data).in_processing@ == old(data).in_processing@,
        data_files_view(final(data).files@) == s_apply_loc(
            data_files_view(old(data).files@),
            *fl,
            panicky,
        ),
{
    if fl.line >= 1 {
        let l = fl.line as usize;
        if l < usize::MAX {
            set_panic_line(data, fl, panicky);
        }
    }
}

/// Classifies one instruction: a call whose callee resolves to a function
/// of the module is as panicky as that function; every other instruction,
/// and a call whose callee does not resolve, is never panicky.
pub fn is_panicky(data: &mut Data, m: &Module, instr: &Instr) -> (r: bool)
    requires
        module_wf(*m),
        data_inv(*old(data), m.fns@.len() as nat),
        instr_wf(*instr, m.fns@.len() as int),
    ensures
        data_inv(*final(data), m.fns@.len() as nat),
        final(data).in_processing@ == old(data).in_processing@,
        (r, st_of(*final(data))) == s_call_class(
            *m,
            st_of(*old(data)),
            old(data).in_processing@,
            *instr,
        ),
    decreases num_free(data.in_processing@), 1int,
{
    match instr {
        Instr::Call(c) => match &c.callee {
            Value::Function(g) => fn_is_panicky(data, m, *g),
            Value::Other => false,
        },
        Instr::Other => false,
    }
}

/// Processes one instruction: classifies it and, for a call site, records
/// both of its attribution points with that classification.
pub fn do_instr(data: &mut Data, m: &Module, instr: &Instr) -> (r: bool)
    requires
        module_wf(*m),
        data_inv(*old(data), m.fns@.len() as nat),
        instr_wf(*instr, m.fns@.len() as int),
    ensures
        data_inv(*final(data), m.fns@.len() as nat),
        final(data).in_processing@ == old(data).in_processing@,
        (r, st_of(*final(data))) == s_do_instr(
            *m,
            st_of(*old(data)),
            old(data).in_processing@,
            *instr,
        ),
    decreases num_free(data.in_processing@), 2int,
{
    let p = is_panicky(data, m, instr);
    match instr {
        Instr::Call(c) => {
            match &c.debug {
                Some(di) => {
                    if let Some(fl) = &di.direct {
                        apply_loc(data, fl, p);
                    }
                    if let Some(fl) = &di.inlined_at {
                        apply_loc(data, fl, p);
                    }
                },
                None => {},
            }
        },
        Instr::Other => {},
    }
    p
}

/// Classifies function `f` from its body: a panic root is panicky
/// regardless of its body; any other function is panicky exactly when some
/// call site of its body is. Visits every instruction, so every call site
/// of `f` is annotated as a side effect.
pub fn fn_is_panicky_impl(data: &mut Data, m: &Module, f: usize) -> (r: bool)
    requires
        module_wf(*m),
        data_inv(*old(data), m.fns@.len() as nat),
        f < m.fns@.len(),
    ensures
        data_inv(*final(data), m.fns@.len() as nat),
        final(data).in_processing@ == old(data).in_processing@,
        (r, st_of(*final(data))) == s_impl(
            *m,
            st_of(*old(data)),
            old(data).in_processing@,
            f as int,
        ),
    decreases num_free(data.in_processing@), 4int,
{
    let fun = &m.fns[f];
    if is_panic_root(fun.name.as_str()) {
        return true;
    }
    let ghost st0 = st_of(*old(data));
    let ghost ip = old(data).in_processing@;
    let mut result = false;
    let nb = fun.blocks.len();
    let mut b: usize = 0;
    while b < nb
        invariant
            module_wf(*m),
            f < m.fns@.len(),
            *fun == m.fns@[f as int],
            nb == m.fns@[f as int].blocks@.len(),
            data_inv(*data, m.fns@.len() as nat),
            data.in_processing@ == ip,
            ip == old(data).in_processing@,
            0 <= b <= nb,
            s_body(*m, st_of(*data), ip, f as int, b as int, 0, result) == s_body(
                *m,
                st0,
                ip,
                f as int,
                0,
                0,
                false,
            ),
        decreases nb - b,
    {
        let block = &fun.blocks[b];
        let ni = block.instrs.len();
        let mut i: usize = 0;
        while i < ni
            invariant
                module_wf(*m),
                f < m.fns@.len(),
                *fun == m.fns@[f as int],
                nb == m.fns@[f as int].blocks@.len(),
                b < nb,
                *block == m.fns@[f as int].blocks@[b as int],
                ni == m.fns@[f as int].blocks@[b as int].instrs@.len(),
                data_inv(*data, m.fns@.len() as nat),
                data.in_processing@ == ip,
                ip == old(data).in_processing@,
                0 <= i <= ni,
                s_body(*m, st_of(*data), ip, f as int, b as int, i as int, result) == s_body(
                    *m,
                    st0,
                    ip,
                    f as int,
                    0,
                    0,
                    false,
                ),
            decreases ni - i,
        {
            let instr = &block.instrs[i];
            proof {
                assert(instr_wf(m.fns@[f as int].blocks@[b as int].instrs@[i as int], m.fns@.len() as int));
            }
            let ghost st_pre = st_of(*data);
            let one = do_instr(data, m, instr);
            proof {
                assert(s_body(*m, st_pre, ip, f as int, b as int, i as int, result) == s_body(
                    *m,
                    st_of(*data),
                    ip,
                    f as int,
                    b as int,
                    i as int + 1,
                    one || result,
                ));
            }
            result = one || result;
            i += 1;
        }
        proof {
            assert(s_body(*m, st_of(*data), ip, f as int, b as int, ni as int, result) == s_body(
                *m,
                st_of(*data),
                ip,
                f as int,
                b as int + 1,
                0,
                result,
            ));
        }
        b += 1;
    }
    proof {
        assert(s_body(*m, st_of(*data), ip, f as int, nb as int, 0, result) == (result, st_of(
            *data,
        )));
    }
    result
}

/// Memoized classification of function `f`: a hit returns the recorded
/// answer; a miss classifies `f` from its body and records the answer
/// permanently for the run.
pub fn fn_is_panicky_pika(data: &mut Data, m: &Module, f: usize) -> (r: bool)
    requires
        module_wf(*m),
        data_inv(*old(data), m.fns@.len() as nat),
        f < m.fns@.len(),
    ensures
        data_inv(*final(data), m.fns@.len() as nat),
        final(data).in_processing@ == old(data).in_processing@,
        (r, st_of(*final(data))) == s_pika(
            *m,
            st_of(*old(data)),
            old(data).in_processing@,
            f as int,
        ),
    decreases num_free(data.in_processing@), 5int,
{
    let memoized = data.fns[f];
    match memoized {
        Some(x) => x,
        None => {
            let ret = fn_is_panicky_impl(data, m, f);
            data.fns[f] = Some(ret);
            ret
        },
    }
}

/// Classifies function `f`, breaking call cycles: a function whose own
/// classification is already in progress is conservatively reported as not
/// panicky; otherwise it is marked in progress, classified through the
/// memo, and released again.
pub fn fn_is_panicky(data: &mut Data, m: &Module, f: usize) -> (r: bool)
    requires
        module_wf(*m),
        data_inv(*old(data), m.fns@.len() as nat),
        f < m.fns@.len(),
    ensures
        data_inv(*final(data), m.fns@.len() as nat),
        final(data).in_processing@ == old(data).in_processing@,
        (r, st_of(*final(data))) == s_fn_is_panicky(
            *m,
            st_of(*old(data)),
            old(data).in_processing@,
            f as int,
        ),
    decreases num_free(data.in_processing@), 0int,
{
    if data.in_processing[f] {
        return false;
    }
    data.in_processing[f] = true;
    proof {
        lemma_num_free_update(old(data).in_processing@, f as int);
    }
    let ret = fn_is_panicky_pika(data, m, f);
    data.in_processing[f] = false;
    proof {
        assert(data.in_processing@ =~= old(data).in_processing@);
    }
    ret
}

/// How many recorded classifications are panicky.
pub open spec fn count_panicky(memo: Seq<Option<bool>>) -> nat
    decreases memo.len(),
{
    if memo.len() == 0 {
        0
    } else {
        count_panicky(memo.drop_last()) + if memo.last() == Some(true) {
            1nat
        } else {
            0nat
        }
    }
}

/// At most every recorded classification is panicky.
proof fn lemma_count_panicky_le(memo: Seq<Option<bool>>)
    ensures
        count_panicky(memo) <= memo.len(),
    decreases memo.len(),
{
    if memo.len() > 0 {
        lemma_count_panicky_le(memo.drop_last());
    }
}

impl Data {
    /// Fresh state for a module of `n` functions: no file tables, nothing
    /// memoized, nothing in progress.
    pub fn new(n: usize) -> (data: Data)
        ensures
            data_inv(data, n as nat),
            data.fns@ == init_memo(n as nat),
            data.in_processing@ == init_ip(n as nat),
            data.files@.len() == 0,
    {
        let mut fns: Vec<Option<bool>> = Vec::new();
        let mut ip: Vec<bool> = Vec::new();
        let mut j: usize = 0;
        while j < n
            invariant
                0 <= j <= n,
                fns@ == init_memo(j as nat),
                ip@ == init_ip(j as nat),
            decreases n - j,
        {
            fns.push(None);
            ip.push(false);
            j += 1;
            proof {
                assert(fns@ =~= init_memo(j as nat));
                assert(ip@ =~= init_ip(j as nat));
            }
        }
        Data { files: Vec::new(), fns, in_processing: ip }
    }

    /// The recorded status of `line` of the file named `filename`:
    /// `NotInBinary` unless the run recorded other evidence for it.
    pub fn line_status(&self, filename: &String, line: usize) -> (st: LineStatus)
        ensures
            st == s_line_status(data_files_view(self.files@), filename@, line as int),
    {
        proof {
            lemma_file_index_of(data_files_view(self.files@), filename@);
        }
        let idx = find_file_idx(&self.files, filename);
        if idx < self.files.len() {
            let entry = &self.files[idx];
            if line < entry.1.lines.len() {
                return entry.1.lines[line];
            }
        }
        LineStatus::NotInBinary
    }

    /// How many functions the run classified as able to reach a panic.
    pub fn no_of_panicky_fns(&self) -> (c: usize)
        ensures
            c as nat == count_panicky(self.fns@),
    {
        let n = self.fns.len();
        let mut c: usize = 0;
        let mut j: usize = 0;
        while j < n
            invariant
                0 <= j <= n,
                n == self.fns@.len(),
                c as nat == count_panicky(self.fns@.take(j as int)),
                c <= j,
            decreases n - j,
        {
            proof {
                lemma_count_panicky_le(self.fns@.take(j as int));
                assert(self.fns@.take(j as int + 1).drop_last() =~= self.fns@.take(j as int));
                assert(self.fns@.take(j as int + 1).last() == self.fns@[j as int]);
            }
            let hit = match self.fns[j] {
                Some(x) => x,
                None => false,
            };
            if hit {
                c += 1;
            }
            j += 1;
        }
        proof {
            assert(self.fns@.take(n as int) =~= self.fns@);
        }
        c
    }

    /// How many files of the module received evidence.
    pub fn no_of_files(&self) -> (c: usize)
        ensures
            c == self.files@.len(),
    {
        self.files.len()
    }
}

/// Runs the full analysis of a module: classifies every function in table
/// order and accumulates the per-file line tables from every call site
/// visited along the way.
pub fn analyze(m: &Module) -> (data: Data)
    requires
        module_wf(*m),
    ensures
        data_inv(data, m.fns@.len() as nat),
        data.in_processing@ == init_ip(m.fns@.len() as nat),
        st_of(data) == s_analyze(*m),
{
    let n = m.fns.len();
    let mut data = Data::new(n);
    proof {
        assert(data_files_view(data.files@) =~= Seq::<FileRep>::empty());
        assert(st_of(data) == init_state(n as nat));
    }
    let mut f: usize = 0;
    while f < n
        invariant
            module_wf(*m),
            n == m.fns@.len(),
            data_inv(data, n as nat),
            data.in_processing@ == init_ip(n as nat),
            0 <= f <= n,
            s_run(*m, st_of(data), f as int) == s_analyze(*m),
        decreases n - f,
    {
        let ghost st_pre = st_of(data);
        fn_is_panicky(&mut data, m, f);
        proof {
            assert(s_run(*m, st_pre, f as int) == s_run(*m, st_of(data), f as int + 1));
        }
        f += 1;
    }
    data
}

} // verus!
