//! The laws of the analysis, stated over the functional model that every
//! executable function of `crate::analysis` is proved to compute: the root
//! short-circuit, propagation along resolved calls, non-propagation through
//! unresolved calls, the conservative cycle policy, and the sticky,
//! growth-safe, idempotent line merge.

use crate::analysis::{spec_is_panic_root, LineStatus};
use crate::ir::{instr_wf, module_wf, Instr, Module, Value};
use crate::model::{
    file_index_of, init_ip, init_state, lemma_file_index_of, lemma_index_of_pinpoint,
    lemma_num_free_update, num_free, s_analyze, s_body, s_call_class, s_do_instr, s_fn_is_panicky,
    s_impl, s_line_merge, s_line_status, s_pika, s_run, s_set_panic_line, s_update_lines, AState,
    FileRep,
};
use vstd::prelude::*;

verus! {

/// Root short-circuit: a function whose name carries the panic-root prefix
/// is classified panicky regardless of its body, from any state that is
/// not mid-way through classifying it and that has not recorded an answer
/// other than panicky for it. Its classification records no line evidence.
pub proof fn lemma_root_short_circuit(m: Module, st: AState, ip: Seq<bool>, f: int)
    requires
        0 <= f < m.fns@.len(),
        ip.len() == m.fns@.len(),
        !ip[f],
        st.memo[f] is None || st.memo[f] == Some(true),
        spec_is_panic_root(m.fns@[f].name@),
    ensures
        s_fn_is_panicky(m, st, ip, f).0 == true,
        s_fn_is_panicky(m, st, ip, f).1.files == st.files,
        st.memo[f] is None ==> s_fn_is_panicky(m, st, ip, f).1.memo == st.memo.update(
            f,
            Some(true),
        ),
        st.memo[f] == Some(true) ==> s_fn_is_panicky(m, st, ip, f).1 == st,
{
    let ip1 = ip.update(f, true);
    assert(s_fn_is_panicky(m, st, ip, f) == s_pika(m, st, ip1, f));
    assert(s_impl(m, st, ip1, f) == (true, st));
}

/// Root short-circuit as the analysis first meets a function: from the
/// fresh state, with nothing else assumed, a panic root is classified
/// panicky and recorded so, regardless of its body.
pub proof fn lemma_root_short_circuit_fresh(m: Module, f: int)
    requires
        0 <= f < m.fns@.len(),
        spec_is_panic_root(m.fns@[f].name@),
    ensures
        s_fn_is_panicky(m, init_state(m.fns@.len()), init_ip(m.fns@.len()), f).0 == true,
        s_fn_is_panicky(m, init_state(m.fns@.len()), init_ip(m.fns@.len()), f).1.memo[f] == Some(
            true,
        ),
{
    lemma_root_short_circuit(m, init_state(m.fns@.len()), init_ip(m.fns@.len()), f);
}

/// Function `f`'s whole body is a single call that resolves to function `g`.
pub open spec fn single_call_fn(m: Module, f: int, g: int) -> bool {
    &&& m.fns@[f].blocks@.len() == 1
    &&& m.fns@[f].blocks@[0].instrs@.len() == 1
    &&& match m.fns@[f].blocks@[0].instrs@[0] {
        Instr::Call(c) => match c.callee {
            Value::Function(gu) => gu == g,
            Value::Other => false,
        },
        Instr::Other => false,
    }
}

/// Classifying a function whose whole body is one call to `g` (itself not
/// a root, not in progress, not yet memoized) classifies `g` with `f`
/// marked in progress, records that answer for `f`, and returns it.
pub proof fn lemma_single_call_step(m: Module, st: AState, ip: Seq<bool>, f: int, g: int)
    requires
        0 <= f < m.fns@.len(),
        0 <= g < m.fns@.len(),
        ip.len() == m.fns@.len(),
        !ip[f],
        st.memo[f] is None,
        !spec_is_panic_root(m.fns@[f].name@),
        single_call_fn(m, f, g),
    ensures
        ({
            let inner = s_fn_is_panicky(m, st, ip.update(f, true), g);
            s_fn_is_panicky(m, st, ip, f).0 == inner.0 && s_fn_is_panicky(m, st, ip, f).1.memo
                == inner.1.memo.update(f, Some(inner.0))
        }),
{
    let ip1 = ip.update(f, true);
    let instr = m.fns@[f].blocks@[0].instrs@[0];
    let inner = s_fn_is_panicky(m, st, ip1, g);
    assert(s_call_class(m, st, ip1, instr) == inner);
    let p = inner.0;
    let st1 = inner.1;
    let st2 = s_do_instr(m, st, ip1, instr).1;
    assert(s_do_instr(m, st, ip1, instr).0 == p);
    assert(st2.memo == st1.memo);
    assert(s_body(m, st, ip1, f, 0, 0, false) == s_body(m, st2, ip1, f, 0, 1, p));
    assert(s_body(m, st2, ip1, f, 0, 1, p) == s_body(m, st2, ip1, f, 1, 0, p));
    assert(s_body(m, st2, ip1, f, 1, 0, p) == (p, st2));
    assert(s_impl(m, st, ip1, f) == (p, st2));
    assert(s_pika(m, st, ip1, f).0 == p);
    assert(s_pika(m, st, ip1, f).1.memo == st2.memo.update(f, Some(p)));
    assert(s_fn_is_panicky(m, st, ip, f) == s_pika(m, st, ip1, f));
}

/// Propagation: in a module where A's whole body is one call to B and B's
/// whole body is one call to the panic root R (three distinct functions),
/// classifying either A or B from the fresh state yields panicky.
pub proof fn lemma_propagation(m: Module, a: int, b: int, r: int)
    requires
        0 <= a < m.fns@.len(),
        0 <= b < m.fns@.len(),
        0 <= r < m.fns@.len(),
        a != b,
        b != r,
        a != r,
        single_call_fn(m, a, b),
        single_call_fn(m, b, r),
        spec_is_panic_root(m.fns@[r].name@),
    ensures
        s_fn_is_panicky(m, init_state(m.fns@.len()), init_ip(m.fns@.len()), a).0 == true,
        s_fn_is_panicky(m, init_state(m.fns@.len()), init_ip(m.fns@.len()), b).0 == true,
{
    let n = m.fns@.len();
    let st0 = init_state(n);
    let ip0 = init_ip(n);
    if spec_is_panic_root(m.fns@[b].name@) {
        lemma_root_short_circuit(m, st0, ip0, b);
    } else {
        lemma_single_call_step(m, st0, ip0, b, r);
        lemma_root_short_circuit(m, st0, ip0.update(b, true), r);
    }
    if spec_is_panic_root(m.fns@[a].name@) {
        lemma_root_short_circuit(m, st0, ip0, a);
    } else {
        lemma_single_call_step(m, st0, ip0, a, b);
        let ip1 = ip0.update(a, true);
        if spec_is_panic_root(m.fns@[b].name@) {
            lemma_root_short_circuit(m, st0, ip1, b);
        } else {
            lemma_single_call_step(m, st0, ip1, b, r);
            lemma_root_short_circuit(m, st0, ip1.update(b, true), r);
        }
    }
}

/// An instruction that is not a call resolved to a function of the module.
pub open spec fn unresolved_instr(instr: Instr) -> bool {
    match instr {
        Instr::Call(c) => c.callee is Other,
        Instr::Other => true,
    }
}

/// Every instruction of `f`'s body is a non-call or an unresolved call.
pub open spec fn only_unresolved_calls(m: Module, f: int) -> bool {
    forall|b: int, i: int|
        0 <= b < m.fns@[f].blocks@.len() && 0 <= i < m.fns@[f].blocks@[b].instrs@.len()
            ==> unresolved_instr(#[trigger] m.fns@[f].blocks@[b].instrs@[i])
}

/// Walking a body whose instructions are all non-calls or unresolved calls
/// never finds a panicky call site and never touches the memo: such sites
/// contribute nothing to the disjunction.
proof fn lemma_body_unresolved(
    m: Module,
    st: AState,
    ip: Seq<bool>,
    f: int,
    b: int,
    i: int,
    acc: bool,
)
    requires
        0 <= f < ip.len(),
        0 <= b,
        0 <= i,
        only_unresolved_calls(m, f),
    ensures
        s_body(m, st, ip, f, b, i, acc).0 == acc,
        s_body(m, st, ip, f, b, i, acc).1.memo == st.memo,
    decreases m.fns@[f].blocks@.len() - b, m.fns@[f].blocks@[b].instrs@.len() - i,
{
    if b >= m.fns@[f].blocks@.len() {
    } else if i >= m.fns@[f].blocks@[b].instrs@.len() {
        lemma_body_unresolved(m, st, ip, f, b + 1, 0, acc);
    } else {
        let instr = m.fns@[f].blocks@[b].instrs@[i];
        assert(unresolved_instr(instr));
        assert(s_call_class(m, st, ip, instr) == (false, st));
        let st1 = s_do_instr(m, st, ip, instr).1;
        assert(s_do_instr(m, st, ip, instr).0 == false);
        assert(st1.memo == st.memo);
        lemma_body_unresolved(m, st1, ip, f, b, i + 1, acc);
    }
}

/// Non-propagation through unresolved calls: a function that is not a
/// panic root and whose body holds only non-calls and unresolved calls is
/// classified not panicky, and that conservative answer is recorded.
pub proof fn lemma_unresolved_not_panicky(m: Module, st: AState, ip: Seq<bool>, f: int)
    requires
        0 <= f < m.fns@.len(),
        ip.len() == m.fns@.len(),
        !ip[f],
        st.memo[f] is None,
        !spec_is_panic_root(m.fns@[f].name@),
        only_unresolved_calls(m, f),
    ensures
        s_fn_is_panicky(m, st, ip, f).0 == false,
        s_fn_is_panicky(m, st, ip, f).1.memo == st.memo.update(f, Some(false)),
{
    let ip1 = ip.update(f, true);
    lemma_body_unresolved(m, st, ip1, f, 0, 0, false);
    assert(s_impl(m, st, ip1, f) == s_body(m, st, ip1, f, 0, 0, false));
    assert(s_fn_is_panicky(m, st, ip, f) == s_pika(m, st, ip1, f));
}

/// The instruction cannot report panicky over this state: it is a
/// non-call, an unresolved call, or a call whose resolved callee is
/// already in progress (the cycle breaker answers for it) or already
/// recorded not panicky.
pub open spec fn blocked_instr(instr: Instr, memo: Seq<Option<bool>>, ip: Seq<bool>) -> bool {
    match instr {
        Instr::Call(c) => match c.callee {
            Value::Function(g) => g < ip.len() && (ip[g as int] || memo[g as int] == Some(false)),
            Value::Other => true,
        },
        Instr::Other => true,
    }
}

/// A walk over blocked instructions reports nothing and leaves the memo
/// unchanged: cycle-broken callees, already-refuted callees, unresolved
/// calls and non-calls all contribute false to the disjunction.
proof fn lemma_body_blocked(
    m: Module,
    st: AState,
    ip: Seq<bool>,
    f: int,
    b: int,
    i: int,
    acc: bool,
)
    requires
        0 <= f < ip.len(),
        0 <= b,
        0 <= i,
        forall|b2: int, i2: int|
            0 <= b2 < m.fns@[f].blocks@.len() && 0 <= i2 < m.fns@[f].blocks@[b2].instrs@.len()
                ==> blocked_instr(#[trigger] m.fns@[f].blocks@[b2].instrs@[i2], st.memo, ip),
    ensures
        s_body(m, st, ip, f, b, i, acc).0 == acc,
        s_body(m, st, ip, f, b, i, acc).1.memo == st.memo,
    decreases m.fns@[f].blocks@.len() - b, m.fns@[f].blocks@[b].instrs@.len() - i,
{
    if b >= m.fns@[f].blocks@.len() {
    } else if i >= m.fns@[f].blocks@[b].instrs@.len() {
        lemma_body_blocked(m, st, ip, f, b + 1, 0, acc);
    } else {
        let instr = m.fns@[f].blocks@[b].instrs@[i];
        assert(blocked_instr(instr, st.memo, ip));
        match instr {
            Instr::Call(ci) => match ci.callee {
                Value::Function(g) => {
                    if ip[g as int] {
                        assert(s_fn_is_panicky(m, st, ip, g as int) == (false, st));
                    } else {
                        assert(s_fn_is_panicky(m, st, ip, g as int) == s_pika(
                            m,
                            st,
                            ip.update(g as int, true),
                            g as int,
                        ));
                        assert(s_pika(m, st, ip.update(g as int, true), g as int) == (false, st));
                    }
                },
                Value::Other => {},
            },
            Instr::Other => {},
        }
        assert(s_call_class(m, st, ip, instr) == (false, st));
        let st1 = s_do_instr(m, st, ip, instr).1;
        assert(s_do_instr(m, st, ip, instr).0 == false);
        assert(st1.memo == st.memo);
        assert forall|b2: int, i2: int|
            0 <= b2 < m.fns@[f].blocks@.len() && 0 <= i2
                < m.fns@[f].blocks@[b2].instrs@.len() implies blocked_instr(
            #[trigger] m.fns@[f].blocks@[b2].instrs@[i2],
            st1.memo,
            ip,
        ) by {
            assert(blocked_instr(m.fns@[f].blocks@[b2].instrs@[i2], st.memo, ip));
        }
        lemma_body_blocked(m, st1, ip, f, b, i + 1, acc);
    }
}

/// Every call of `f`'s body that resolves, resolves to `g`.
pub open spec fn only_resolved_callee(m: Module, f: int, g: int) -> bool {
    forall|b: int, i: int|
        0 <= b < m.fns@[f].blocks@.len() && 0 <= i < m.fns@[f].blocks@[b].instrs@.len() ==> (
        unresolved_instr(#[trigger] m.fns@[f].blocks@[b].instrs@[i]) || calls_fn(
            m.fns@[f].blocks@[b].instrs@[i],
            g,
        ))
}

/// Every instruction of `f`'s body strictly before position (b0, i0) is a
/// non-call or an unresolved call.
pub open spec fn no_resolved_call_before(m: Module, f: int, b0: int, i0: int) -> bool {
    forall|b: int, i: int|
        0 <= b < m.fns@[f].blocks@.len() && 0 <= i < m.fns@[f].blocks@[b].instrs@.len() && (b < b0
            || (b == b0 && i < i0)) ==> unresolved_instr(
            #[trigger] m.fns@[f].blocks@[b].instrs@[i],
        )
}

/// The walk of C's body while C is in progress, where C's resolved calls
/// all go to D and D's all come back to C. Up to C's first resolved call,
/// instructions contribute nothing; that call classifies D — all of whose
/// resolved calls meet the in-progress C and break — as not panicky and
/// records it; every later call to D meets that record. The walk reports
/// nothing panicky and adds exactly D's record to the memo.
proof fn lemma_cycle_walk(
    m: Module,
    st: AState,
    ip: Seq<bool>,
    c: int,
    d: int,
    b: int,
    i: int,
    acc: bool,
    b0: int,
    i0: int,
)
    requires
        0 <= c < m.fns@.len(),
        0 <= d < m.fns@.len(),
        c != d,
        ip.len() == m.fns@.len(),
        st.memo.len() == m.fns@.len(),
        ip[c],
        !ip[d],
        st.memo[d] is None,
        !spec_is_panic_root(m.fns@[d].name@),
        only_resolved_callee(m, c, d),
        only_resolved_callee(m, d, c),
        0 <= b,
        0 <= i,
        b < b0 || (b == b0 && i <= i0),
        0 <= b0 < m.fns@[c].blocks@.len(),
        0 <= i0 < m.fns@[c].blocks@[b0].instrs@.len(),
        calls_fn(m.fns@[c].blocks@[b0].instrs@[i0], d),
        no_resolved_call_before(m, c, b0, i0),
    ensures
        s_body(m, st, ip, c, b, i, acc).0 == acc,
        s_body(m, st, ip, c, b, i, acc).1.memo == st.memo.update(d, Some(false)),
    decreases m.fns@[c].blocks@.len() - b, m.fns@[c].blocks@[b].instrs@.len() - i,
{
    if b == b0 && i == i0 {
        let instr = m.fns@[c].blocks@[b0].instrs@[i0];
        let ipd = ip.update(d, true);
        assert forall|b2: int, i2: int|
            0 <= b2 < m.fns@[d].blocks@.len() && 0 <= i2
                < m.fns@[d].blocks@[b2].instrs@.len() implies blocked_instr(
            #[trigger] m.fns@[d].blocks@[b2].instrs@[i2],
            st.memo,
            ipd,
        ) by {
            assert(unresolved_instr(m.fns@[d].blocks@[b2].instrs@[i2]) || calls_fn(
                m.fns@[d].blocks@[b2].instrs@[i2],
                c,
            ));
            assert(ipd[c]);
        }
        lemma_body_blocked(m, st, ipd, d, 0, 0, false);
        assert(s_impl(m, st, ipd, d).0 == false);
        assert(s_impl(m, st, ipd, d).1.memo == st.memo);
        assert(s_pika(m, st, ipd, d).0 == false);
        assert(s_pika(m, st, ipd, d).1.memo == st.memo.update(d, Some(false)));
        assert(s_fn_is_panicky(m, st, ip, d) == s_pika(m, st, ipd, d));
        let st3 = s_do_instr(m, st, ip, instr).1;
        assert(s_do_instr(m, st, ip, instr).0 == false);
        assert(st3.memo == st.memo.update(d, Some(false)));
        assert forall|b2: int, i2: int|
            0 <= b2 < m.fns@[c].blocks@.len() && 0 <= i2
                < m.fns@[c].blocks@[b2].instrs@.len() implies blocked_instr(
            #[trigger] m.fns@[c].blocks@[b2].instrs@[i2],
            st3.memo,
            ip,
        ) by {
            assert(unresolved_instr(m.fns@[c].blocks@[b2].instrs@[i2]) || calls_fn(
                m.fns@[c].blocks@[b2].instrs@[i2],
                d,
            ));
            assert(st3.memo[d] == Some(false));
        }
        lemma_body_blocked(m, st3, ip, c, b, i + 1, false || acc);
    } else if i >= m.fns@[c].blocks@[b].instrs@.len() {
        lemma_cycle_walk(m, st, ip, c, d, b + 1, 0, acc, b0, i0);
    } else {
        let instr = m.fns@[c].blocks@[b].instrs@[i];
        assert(unresolved_instr(instr));
        assert(s_call_class(m, st, ip, instr) == (false, st));
        let st1 = s_do_instr(m, st, ip, instr).1;
        assert(s_do_instr(m, st, ip, instr).0 == false);
        assert(st1.memo == st.memo);
        lemma_cycle_walk(m, st1, ip, c, d, b, i + 1, false || acc, b0, i0);
    }
}

/// Cycle conservatism, in general: C's resolved calls all go to D and D's
/// all come back to C — amid any non-call and unresolved-call instructions
/// — neither is a panic root, and neither is in progress or classified
/// yet. Classifying C answers not panicky, and records that conservative
/// answer for both C and D. (b0, i0) names C's first resolved call site.
pub proof fn lemma_cycle_conservatism(
    m: Module,
    st: AState,
    ip: Seq<bool>,
    c: int,
    d: int,
    b0: int,
    i0: int,
)
    requires
        0 <= c < m.fns@.len(),
        0 <= d < m.fns@.len(),
        c != d,
        ip.len() == m.fns@.len(),
        st.memo.len() == m.fns@.len(),
        !ip[c],
        !ip[d],
        st.memo[c] is None,
        st.memo[d] is None,
        !spec_is_panic_root(m.fns@[c].name@),
        !spec_is_panic_root(m.fns@[d].name@),
        only_resolved_callee(m, c, d),
        only_resolved_callee(m, d, c),
        0 <= b0 < m.fns@[c].blocks@.len(),
        0 <= i0 < m.fns@[c].blocks@[b0].instrs@.len(),
        calls_fn(m.fns@[c].blocks@[b0].instrs@[i0], d),
        no_resolved_call_before(m, c, b0, i0),
    ensures
        s_fn_is_panicky(m, st, ip, c).0 == false,
        s_fn_is_panicky(m, st, ip, c).1.memo[c] == Some(false),
        s_fn_is_panicky(m, st, ip, c).1.memo[d] == Some(false),
{
    let ipc = ip.update(c, true);
    lemma_cycle_walk(m, st, ipc, c, d, 0, 0, false, b0, i0);
    assert(s_impl(m, st, ipc, c).0 == false);
    assert(s_impl(m, st, ipc, c).1.memo == st.memo.update(d, Some(false)));
    assert(s_pika(m, st, ipc, c).0 == false);
    assert(s_pika(m, st, ipc, c).1.memo == st.memo.update(d, Some(false)).update(c, Some(false)));
    assert(s_fn_is_panicky(m, st, ip, c) == s_pika(m, st, ipc, c));
}

/// The instruction is a call that resolves to function `g`.
pub open spec fn calls_fn(instr: Instr, g: int) -> bool {
    match instr {
        Instr::Call(c) => match c.callee {
            Value::Function(gu) => gu == g,
            Value::Other => false,
        },
        Instr::Other => false,
    }
}

/// Once some call site of the body was panicky, the walk of the rest of
/// the body reports panicky, whatever it meets.
proof fn lemma_body_true(m: Module, st: AState, ip: Seq<bool>, f: int, b: int, i: int)
    requires
        0 <= f < ip.len(),
        0 <= b,
        0 <= i,
    ensures
        s_body(m, st, ip, f, b, i, true).0 == true,
    decreases m.fns@[f].blocks@.len() - b, m.fns@[f].blocks@[b].instrs@.len() - i,
{
    if b >= m.fns@[f].blocks@.len() {
    } else if i >= m.fns@[f].blocks@[b].instrs@.len() {
        lemma_body_true(m, st, ip, f, b + 1, 0);
    } else {
        let instr = m.fns@[f].blocks@[b].instrs@[i];
        let st1 = s_do_instr(m, st, ip, instr).1;
        lemma_body_true(m, st1, ip, f, b, i + 1);
    }
}

/// Non-propagation as the analysis first meets a function: from the fresh
/// state, with nothing else assumed, a non-root function whose body holds
/// only non-calls and unresolved calls is classified not panicky, and that
/// conservative answer is recorded.
pub proof fn lemma_unresolved_not_panicky_fresh(m: Module, f: int)
    requires
        0 <= f < m.fns@.len(),
        !spec_is_panic_root(m.fns@[f].name@),
        only_unresolved_calls(m, f),
    ensures
        s_fn_is_panicky(m, init_state(m.fns@.len()), init_ip(m.fns@.len()), f).0 == false,
        s_fn_is_panicky(m, init_state(m.fns@.len()), init_ip(m.fns@.len()), f).1.memo[f] == Some(
            false,
        ),
{
    lemma_unresolved_not_panicky(m, init_state(m.fns@.len()), init_ip(m.fns@.len()), f);
}

/// The second memo table extends the first: same size, and every recorded
/// answer of the first stands unchanged in the second.
pub open spec fn memo_extends(memo0: Seq<Option<bool>>, memo1: Seq<Option<bool>>) -> bool {
    &&& memo1.len() == memo0.len()
    &&& forall|k: int| 0 <= k < memo0.len() && memo0[k] is Some ==> memo1[k] == memo0[k]
}

/// No panic root is ever recorded as unable to panic.
pub open spec fn memo_root_valid(m: Module, memo: Seq<Option<bool>>) -> bool {
    forall|k: int|
        0 <= k < memo.len() && spec_is_panic_root(m.fns@[k].name@) ==> #[trigger] memo[k] != Some(
            false,
        )
}

/// The state a step of a run works on: one memo slot and one cycle-guard
/// slot per function of a well-formed module.
pub open spec fn state_ok(m: Module, st: AState, ip: Seq<bool>) -> bool {
    &&& module_wf(m)
    &&& ip.len() == m.fns@.len()
    &&& st.memo.len() == m.fns@.len()
}

proof fn lemma_fn_preserves(m: Module, st: AState, ip: Seq<bool>, f: int)
    requires
        0 <= f < ip.len(),
        state_ok(m, st, ip),
    ensures
        memo_extends(st.memo, s_fn_is_panicky(m, st, ip, f).1.memo),
        memo_root_valid(m, st.memo) ==> memo_root_valid(m, s_fn_is_panicky(m, st, ip, f).1.memo),
        !ip[f] ==> s_fn_is_panicky(m, st, ip, f).1.memo[f] is Some,
    decreases num_free(ip), 0int, 0int, 0int,
{
    if !ip[f] {
        lemma_num_free_update(ip, f);
        lemma_pika_preserves(m, st, ip.update(f, true), f);
    }
}

proof fn lemma_pika_preserves(m: Module, st: AState, ip: Seq<bool>, f: int)
    requires
        0 <= f < ip.len(),
        state_ok(m, st, ip),
    ensures
        memo_extends(st.memo, s_pika(m, st, ip, f).1.memo),
        memo_root_valid(m, st.memo) ==> memo_root_valid(m, s_pika(m, st, ip, f).1.memo),
        s_pika(m, st, ip, f).1.memo[f] is Some,
    decreases num_free(ip), 5int, 0int, 0int,
{
    match st.memo[f] {
        Some(b) => {},
        None => {
            lemma_impl_preserves(m, st, ip, f);
            let (r, st1) = s_impl(m, st, ip, f);
            let memo2 = st1.memo.update(f, Some(r));
            if memo_root_valid(m, st.memo) {
                assert forall|k: int|
                    0 <= k < memo2.len() && spec_is_panic_root(
                        m.fns@[k].name@,
                    ) implies #[trigger] memo2[k] != Some(false) by {
                    if k != f {
                        assert(st1.memo[k] != Some(false));
                    }
                }
            }
        },
    }
}

proof fn lemma_impl_preserves(m: Module, st: AState, ip: Seq<bool>, f: int)
    requires
        0 <= f < ip.len(),
        state_ok(m, st, ip),
    ensures
        memo_extends(st.memo, s_impl(m, st, ip, f).1.memo),
        memo_root_valid(m, st.memo) ==> memo_root_valid(m, s_impl(m, st, ip, f).1.memo),
        spec_is_panic_root(m.fns@[f].name@) ==> s_impl(m, st, ip, f).0 == true,
    decreases num_free(ip), 4int, 0int, 0int,
{
    if !spec_is_panic_root(m.fns@[f].name@) {
        lemma_body_preserves(m, st, ip, f, 0, 0, false);
    }
}

proof fn lemma_body_preserves(
    m: Module,
    st: AState,
    ip: Seq<bool>,
    f: int,
    b: int,
    i: int,
    acc: bool,
)
    requires
        0 <= f < ip.len(),
        0 <= b,
        0 <= i,
        state_ok(m, st, ip),
    ensures
        memo_extends(st.memo, s_body(m, st, ip, f, b, i, acc).1.memo),
        memo_root_valid(m, st.memo) ==> memo_root_valid(m, s_body(m, st, ip, f, b, i, acc).1.memo),
    decreases num_free(ip), 3int, m.fns@[f].blocks@.len() - b, m.fns@[f].blocks@[b].instrs@.len()
        - i,
{
    if b >= m.fns@[f].blocks@.len() {
    } else if i >= m.fns@[f].blocks@[b].instrs@.len() {
        lemma_body_preserves(m, st, ip, f, b + 1, 0, acc);
    } else {
        let instr = m.fns@[f].blocks@[b].instrs@[i];
        assert(instr_wf(instr, m.fns@.len() as int));
        lemma_do_instr_preserves(m, st, ip, instr);
        let (r, st1) = s_do_instr(m, st, ip, instr);
        lemma_body_preserves(m, st1, ip, f, b, i + 1, r || acc);
    }
}

proof fn lemma_do_instr_preserves(m: Module, st: AState, ip: Seq<bool>, instr: Instr)
    requires
        state_ok(m, st, ip),
        instr_wf(instr, m.fns@.len() as int),
    ensures
        memo_extends(st.memo, s_do_instr(m, st, ip, instr).1.memo),
        memo_root_valid(m, st.memo) ==> memo_root_valid(m, s_do_instr(m, st, ip, instr).1.memo),
    decreases num_free(ip), 2int, 0int, 0int,
{
    lemma_call_class_preserves(m, st, ip, instr);
}

proof fn lemma_call_class_preserves(m: Module, st: AState, ip: Seq<bool>, instr: Instr)
    requires
        state_ok(m, st, ip),
        instr_wf(instr, m.fns@.len() as int),
    ensures
        memo_extends(st.memo, s_call_class(m, st, ip, instr).1.memo),
        memo_root_valid(m, st.memo) ==> memo_root_valid(m, s_call_class(m, st, ip, instr).1.memo),
    decreases num_free(ip), 1int, 0int, 0int,
{
    match instr {
        Instr::Call(c) => match c.callee {
            Value::Function(g) => {
                lemma_fn_preserves(m, st, ip, g as int);
            },
            Value::Other => {},
        },
        Instr::Other => {},
    }
}

/// The walk of `f`'s body from (b, i) on, over a sized state in which no
/// memo slot slanders a root, reports panicky as soon as it reaches the
/// call site (b0, i0), which calls the panic root `r` directly.
proof fn lemma_body_finds_root(
    m: Module,
    st: AState,
    ip: Seq<bool>,
    f: int,
    b: int,
    i: int,
    acc: bool,
    b0: int,
    i0: int,
    r: int,
)
    requires
        state_ok(m, st, ip),
        memo_root_valid(m, st.memo),
        0 <= f < m.fns@.len(),
        0 <= r < m.fns@.len(),
        !ip[r],
        0 <= b,
        0 <= i,
        b < b0 || (b == b0 && i <= i0),
        0 <= b0 < m.fns@[f].blocks@.len(),
        0 <= i0 < m.fns@[f].blocks@[b0].instrs@.len(),
        calls_fn(m.fns@[f].blocks@[b0].instrs@[i0], r),
        spec_is_panic_root(m.fns@[r].name@),
    ensures
        s_body(m, st, ip, f, b, i, acc).0 == true,
    decreases m.fns@[f].blocks@.len() - b, m.fns@[f].blocks@[b].instrs@.len() - i,
{
    if b == b0 && i == i0 {
        let instr = m.fns@[f].blocks@[b0].instrs@[i0];
        assert(st.memo[r] != Some(false));
        match st.memo[r] {
            Some(x) => {
                assert(x != false);
                assert(st.memo[r] == Some(true));
            },
            None => {},
        }
        lemma_root_short_circuit(m, st, ip, r);
        let (p, st1) = s_do_instr(m, st, ip, instr);
        assert(p == true);
        lemma_body_true(m, st1, ip, f, b, i + 1);
    } else if i >= m.fns@[f].blocks@[b].instrs@.len() {
        lemma_body_finds_root(m, st, ip, f, b + 1, 0, acc, b0, i0, r);
    } else {
        let instr = m.fns@[f].blocks@[b].instrs@[i];
        assert(instr_wf(instr, m.fns@.len() as int));
        lemma_do_instr_preserves(m, st, ip, instr);
        let (p, st1) = s_do_instr(m, st, ip, instr);
        lemma_body_finds_root(m, st1, ip, f, b, i + 1, p || acc, b0, i0, r);
    }
}

/// Propagation, in full generality for a direct call: a function whose
/// body holds a call site resolving to a panic root is classified panicky,
/// whatever else its body holds, and that answer is recorded. The state
/// may hold any records that a run can produce: none that slanders a root
/// (the library proves every run keeps that), and none for the function
/// itself other than panicky.
pub proof fn lemma_direct_root_call_panicky(
    m: Module,
    st: AState,
    ip: Seq<bool>,
    f: int,
    r: int,
    b0: int,
    i0: int,
)
    requires
        state_ok(m, st, ip),
        memo_root_valid(m, st.memo),
        0 <= f < m.fns@.len(),
        0 <= r < m.fns@.len(),
        r != f,
        !ip[f],
        !ip[r],
        st.memo[f] is None || st.memo[f] == Some(true),
        0 <= b0 < m.fns@[f].blocks@.len(),
        0 <= i0 < m.fns@[f].blocks@[b0].instrs@.len(),
        calls_fn(m.fns@[f].blocks@[b0].instrs@[i0], r),
        spec_is_panic_root(m.fns@[r].name@),
    ensures
        s_fn_is_panicky(m, st, ip, f).0 == true,
        s_fn_is_panicky(m, st, ip, f).1.memo[f] == Some(true),
{
    let ip1 = ip.update(f, true);
    if spec_is_panic_root(m.fns@[f].name@) {
        lemma_root_short_circuit(m, st, ip, f);
        if st.memo[f] is None {
            assert(s_fn_is_panicky(m, st, ip, f).1.memo == st.memo.update(f, Some(true)));
        } else {
            assert(s_fn_is_panicky(m, st, ip, f).1 == st);
        }
    } else {
        match st.memo[f] {
            Some(b) => {
                assert(s_fn_is_panicky(m, st, ip, f) == s_pika(m, st, ip1, f));
                assert(s_pika(m, st, ip1, f) == (true, st));
            },
            None => {
                lemma_body_finds_root(m, st, ip1, f, 0, 0, false, b0, i0, r);
                lemma_impl_preserves(m, st, ip1, f);
                assert(s_impl(m, st, ip1, f).1.memo.len() == st.memo.len());
                assert(s_impl(m, st, ip1, f).0 == true);
                assert(s_pika(m, st, ip1, f).1.memo == s_impl(m, st, ip1, f).1.memo.update(
                    f,
                    Some(true),
                ));
                assert(s_fn_is_panicky(m, st, ip, f) == s_pika(m, st, ip1, f));
            },
        }
    }
}

/// Propagation to a root as the analysis first meets a function: from the
/// fresh state of a well-formed module, with nothing else assumed, a
/// function with a call site that resolves to a panic root is classified
/// panicky and recorded so, whatever else its body holds.
pub proof fn lemma_direct_root_call_panicky_fresh(m: Module, f: int, r: int, b0: int, i0: int)
    requires
        module_wf(m),
        0 <= f < m.fns@.len(),
        0 <= r < m.fns@.len(),
        r != f,
        0 <= b0 < m.fns@[f].blocks@.len(),
        0 <= i0 < m.fns@[f].blocks@[b0].instrs@.len(),
        calls_fn(m.fns@[f].blocks@[b0].instrs@[i0], r),
        spec_is_panic_root(m.fns@[r].name@),
    ensures
        s_fn_is_panicky(m, init_state(m.fns@.len()), init_ip(m.fns@.len()), f).0 == true,
        s_fn_is_panicky(m, init_state(m.fns@.len()), init_ip(m.fns@.len()), f).1.memo[f] == Some(
            true,
        ),
{
    lemma_direct_root_call_panicky(
        m,
        init_state(m.fns@.len()),
        init_ip(m.fns@.len()),
        f,
        r,
        b0,
        i0,
    );
}

/// The walk of `f`'s body from (b, i) on, over any sized state that has
/// already recorded `g` as panicky, reports panicky as soon as it reaches
/// the call site (b0, i0), which resolves to `g`.
proof fn lemma_body_finds_known(
    m: Module,
    st: AState,
    ip: Seq<bool>,
    f: int,
    b: int,
    i: int,
    acc: bool,
    b0: int,
    i0: int,
    g: int,
)
    requires
        state_ok(m, st, ip),
        0 <= f < m.fns@.len(),
        0 <= g < m.fns@.len(),
        !ip[g],
        st.memo[g] == Some(true),
        0 <= b,
        0 <= i,
        b < b0 || (b == b0 && i <= i0),
        0 <= b0 < m.fns@[f].blocks@.len(),
        0 <= i0 < m.fns@[f].blocks@[b0].instrs@.len(),
        calls_fn(m.fns@[f].blocks@[b0].instrs@[i0], g),
    ensures
        s_body(m, st, ip, f, b, i, acc).0 == true,
    decreases m.fns@[f].blocks@.len() - b, m.fns@[f].blocks@[b].instrs@.len() - i,
{
    if b == b0 && i == i0 {
        let instr = m.fns@[f].blocks@[b0].instrs@[i0];
        assert(s_fn_is_panicky(m, st, ip, g) == s_pika(m, st, ip.update(g, true), g));
        assert(s_pika(m, st, ip.update(g, true), g) == (true, st));
        let (p, st1) = s_do_instr(m, st, ip, instr);
        assert(p == true);
        lemma_body_true(m, st1, ip, f, b, i + 1);
    } else if i >= m.fns@[f].blocks@[b].instrs@.len() {
        lemma_body_finds_known(m, st, ip, f, b + 1, 0, acc, b0, i0, g);
    } else {
        let instr = m.fns@[f].blocks@[b].instrs@[i];
        assert(instr_wf(instr, m.fns@.len() as int));
        lemma_do_instr_preserves(m, st, ip, instr);
        let (p, st1) = s_do_instr(m, st, ip, instr);
        assert(st1.memo[g] == Some(true));
        lemma_body_finds_known(m, st1, ip, f, b, i + 1, p || acc, b0, i0, g);
    }
}

/// Propagation, in full generality for one call edge: a function whose
/// body holds a call site resolving to a function already recorded as
/// panicky is itself classified panicky, whatever else its body holds and
/// whatever else the memo records, and that answer is recorded.
pub proof fn lemma_call_to_panicky_fn(
    m: Module,
    st: AState,
    ip: Seq<bool>,
    f: int,
    g: int,
    b0: int,
    i0: int,
)
    requires
        state_ok(m, st, ip),
        0 <= f < m.fns@.len(),
        0 <= g < m.fns@.len(),
        g != f,
        !ip[f],
        !ip[g],
        st.memo[f] is None || st.memo[f] == Some(true),
        st.memo[g] == Some(true),
        0 <= b0 < m.fns@[f].blocks@.len(),
        0 <= i0 < m.fns@[f].blocks@[b0].instrs@.len(),
        calls_fn(m.fns@[f].blocks@[b0].instrs@[i0], g),
    ensures
        s_fn_is_panicky(m, st, ip, f).0 == true,
        s_fn_is_panicky(m, st, ip, f).1.memo[f] == Some(true),
{
    let ip1 = ip.update(f, true);
    if spec_is_panic_root(m.fns@[f].name@) {
        lemma_root_short_circuit(m, st, ip, f);
        if st.memo[f] is None {
            assert(s_fn_is_panicky(m, st, ip, f).1.memo == st.memo.update(f, Some(true)));
        } else {
            assert(s_fn_is_panicky(m, st, ip, f).1 == st);
        }
    } else {
        match st.memo[f] {
            Some(b) => {
                assert(s_fn_is_panicky(m, st, ip, f) == s_pika(m, st, ip1, f));
                assert(s_pika(m, st, ip1, f) == (true, st));
            },
            None => {
                lemma_body_finds_known(m, st, ip1, f, 0, 0, false, b0, i0, g);
                lemma_impl_preserves(m, st, ip1, f);
                assert(s_impl(m, st, ip1, f).1.memo.len() == st.memo.len());
                assert(s_impl(m, st, ip1, f).0 == true);
                assert(s_pika(m, st, ip1, f).1.memo == s_impl(m, st, ip1, f).1.memo.update(
                    f,
                    Some(true),
                ));
                assert(s_fn_is_panicky(m, st, ip, f) == s_pika(m, st, ip1, f));
            },
        }
    }
}

proof fn lemma_run_classifies(m: Module, st: AState, f: int)
    requires
        0 <= f,
        module_wf(m),
        st.memo.len() == m.fns@.len(),
        memo_root_valid(m, st.memo),
    ensures
        memo_extends(st.memo, s_run(m, st, f).memo),
        memo_root_valid(m, s_run(m, st, f).memo),
        forall|k: int| f <= k < m.fns@.len() ==> (#[trigger] s_run(m, st, f).memo[k]) is Some,
    decreases m.fns@.len() - f,
{
    let n = m.fns@.len() as int;
    if f < n {
        let ip0 = init_ip(m.fns@.len());
        lemma_fn_preserves(m, st, ip0, f);
        let st1 = s_fn_is_panicky(m, st, ip0, f).1;
        lemma_run_classifies(m, st1, f + 1);
        assert forall|k: int| f <= k < n implies (#[trigger] s_run(m, st, f).memo[k]) is Some by {
            if k == f {
                assert(st1.memo[f] is Some);
                assert(s_run(m, st1, f + 1).memo[f] == st1.memo[f]);
            }
        }
    }
}

/// A full pass classifies every function of a well-formed module, and
/// classifies every panic root as panicky: the root short-circuit holds of
/// the whole analysis, whatever the traversal met in between.
pub proof fn lemma_analyze_classifies(m: Module)
    requires
        module_wf(m),
    ensures
        s_analyze(m).memo.len() == m.fns@.len(),
        forall|f: int| 0 <= f < m.fns@.len() ==> (#[trigger] s_analyze(m).memo[f]) is Some,
        forall|f: int|
            0 <= f < m.fns@.len() && spec_is_panic_root(m.fns@[f].name@) ==> s_analyze(m).memo[f]
                == Some(true),
{
    lemma_run_classifies(m, init_state(m.fns@.len()), 0);
    assert forall|f: int|
        0 <= f < m.fns@.len() && spec_is_panic_root(m.fns@[f].name@) implies s_analyze(m).memo[f]
        == Some(true) by {
        assert(s_analyze(m).memo[f] is Some);
        assert(s_analyze(m).memo[f] != Some(false));
    }
}

/// After recording one annotation, the status of the annotated (file,
/// line) pair is the sticky merge of its previous status with the new
/// evidence.
pub proof fn lemma_set_panic_line_status(
    files: Seq<FileRep>,
    name: Seq<char>,
    line: int,
    panicky: bool,
)
    requires
        0 <= line,
    ensures
        s_line_status(s_set_panic_line(files, name, line, panicky), name, line) == s_line_merge(
            s_line_status(files, name, line),
            panicky,
        ),
{
    lemma_file_index_of(files, name);
    let k0 = file_index_of(files, name);
    let files1 = if k0 < files.len() {
        files
    } else {
        files.push(FileRep { name: name, lines: Seq::empty() })
    };
    if k0 == files.len() {
        lemma_index_of_pinpoint(files1, name, k0);
    }
    let k = file_index_of(files1, name);
    assert(k == k0);
    let upd = s_set_panic_line(files, name, line, panicky);
    assert(upd == files1.update(
        k,
        FileRep { name: name, lines: s_update_lines(files1[k].lines, line, panicky) },
    ));
    lemma_index_of_pinpoint(upd, name, k);
}

/// Sticky merge: for a fixed (file, line), evidence recorded NoPanic and
/// then Panic ends as Panic, and evidence recorded Panic and then NoPanic
/// stays Panic: a Panic status is never downgraded.
pub proof fn lemma_sticky_merge(files: Seq<FileRep>, name: Seq<char>, line: int)
    requires
        0 <= line,
    ensures
        s_line_status(
            s_set_panic_line(s_set_panic_line(files, name, line, false), name, line, true),
            name,
            line,
        ) == LineStatus::Panic,
        s_line_status(
            s_set_panic_line(s_set_panic_line(files, name, line, true), name, line, false),
            name,
            line,
        ) == LineStatus::Panic,
{
    lemma_set_panic_line_status(files, name, line, false);
    lemma_set_panic_line_status(s_set_panic_line(files, name, line, false), name, line, true);
    lemma_set_panic_line_status(files, name, line, true);
    lemma_set_panic_line_status(s_set_panic_line(files, name, line, true), name, line, false);
}

/// Growth safety: annotating a line beyond the end of a table extends the
/// table exactly to that line, fills the gap with NotInBinary, and leaves
/// every previously set entry unchanged.
pub proof fn lemma_growth_safety(lines: Seq<LineStatus>, line: int, panicky: bool)
    requires
        lines.len() <= line,
    ensures
        s_update_lines(lines, line, panicky).len() == line + 1,
        forall|j: int|
            0 <= j < lines.len() ==> s_update_lines(lines, line, panicky)[j] == lines[j],
        forall|j: int|
            lines.len() <= j < line ==> s_update_lines(lines, line, panicky)[j]
                == LineStatus::NotInBinary,
        s_update_lines(lines, line, panicky)[line] == if panicky {
            LineStatus::Panic
        } else {
            LineStatus::NoPanic
        },
{
}

/// One merge is idempotent: recording the same non-panicky evidence for a
/// (file, line) pair twice leaves exactly the tables reached after
/// recording it once.
pub proof fn lemma_merge_idempotent(files: Seq<FileRep>, name: Seq<char>, line: int)
    requires
        0 <= line,
    ensures
        s_set_panic_line(s_set_panic_line(files, name, line, false), name, line, false)
            == s_set_panic_line(files, name, line, false),
{
    lemma_file_index_of(files, name);
    let k0 = file_index_of(files, name);
    let files1 = if k0 < files.len() {
        files
    } else {
        files.push(FileRep { name: name, lines: Seq::empty() })
    };
    if k0 == files.len() {
        lemma_index_of_pinpoint(files1, name, k0);
    }
    let k = file_index_of(files1, name);
    let u1 = s_set_panic_line(files, name, line, false);
    lemma_index_of_pinpoint(u1, name, k);
    let l1 = u1[k].lines;
    assert(l1 == s_update_lines(files1[k].lines, line, false));
    assert(0 <= line < l1.len());
    assert(s_update_lines(l1, line, false) =~= l1);
    assert(s_set_panic_line(u1, name, line, false) =~= u1);
}

} // verus!
