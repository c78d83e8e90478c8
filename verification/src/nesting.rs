//! Which sources compile, and how the jumps of a compiled program are tied
//! together.

use vstd::prelude::*;
use crate::compiler::{compiled, op_of, scan, scan_step, Scan};
use crate::instruction::{Instruction, Op, PROGRAM_SIZE, STACK_SIZE};

verus! {

/// The operators that the symbols of `src` stand for, in order.
pub open spec fn operators(src: Seq<char>) -> Seq<Op>
    decreases src.len(),
{
    if src.len() == 0 {
        Seq::empty()
    } else if op_of(src.last()) is Some {
        operators(src.drop_last()).push(op_of(src.last())->0)
    } else {
        operators(src.drop_last())
    }
}

/// The number of symbols in `src`.
pub open spec fn symbols(src: Seq<char>) -> nat {
    operators(src).len()
}

/// The number of loop starts in `src` minus the number of loop ends.
pub open spec fn depth(src: Seq<char>) -> int
    decreases src.len(),
{
    if src.len() == 0 {
        0
    } else if src.last() == '[' {
        depth(src.drop_last()) + 1
    } else if src.last() == ']' {
        depth(src.drop_last()) - 1
    } else {
        depth(src.drop_last())
    }
}

/// No prefix of `src` closes a loop that was not opened, and none has more
/// than `STACK_SIZE` loops open.
pub open spec fn nests(src: Seq<char>) -> bool
    decreases src.len(),
{
    src.len() == 0 || (nests(src.drop_last()) && 0 <= depth(src) <= STACK_SIZE)
}

/// The delimiters of `src` are balanced and never nested too deeply, and
/// its symbols leave a slot for the terminator.
pub open spec fn accepted(src: Seq<char>) -> bool {
    nests(src) && depth(src) == 0 && symbols(src) < PROGRAM_SIZE
}

/// If slot `i` of `code` holds a jump, its operand names a slot below `n`
/// on the proper side of `i` that holds the opposite jump back to `i`.
pub open spec fn paired(code: Seq<Instruction>, n: int, i: int) -> bool {
    let t = code[i].operand as int;
    &&& code[i].operator == Op::JmpFwd ==> i < t < n && code[t] == (Instruction {
        operator: Op::JmpBck,
        operand: i as u16,
    })
    &&& code[i].operator == Op::JmpBck ==> 0 <= t < i && code[t] == (Instruction {
        operator: Op::JmpFwd,
        operand: i as u16,
    })
}

/// Every jump in the first `n` slots of `code` is paired.
pub open spec fn linked(code: Seq<Instruction>, n: int) -> bool {
    forall|i: int| 0 <= i < n ==> #[trigger] paired(code, n, i)
}

/// The number of loops open before position `i` of `ops`.
pub open spec fn level(ops: Seq<Op>, i: int) -> int
    decreases i,
{
    if i <= 0 {
        0
    } else if ops[i - 1] == Op::JmpFwd {
        level(ops, i - 1) + 1
    } else if ops[i - 1] == Op::JmpBck {
        level(ops, i - 1) - 1
    } else {
        level(ops, i - 1)
    }
}

/// From behind position `from` up to position `to`, more than `base` loops
/// are open.
pub open spec fn above(ops: Seq<Op>, from: int, to: int, base: int) -> bool {
    forall|m: int| from < m <= to ==> #[trigger] level(ops, m) > base
}

/// The loop end at `t` closes the loop start at `i`: it is the first place
/// behind `i` at which no more loops are open than were before `i`.
pub open spec fn closes(ops: Seq<Op>, i: int, t: int) -> bool {
    &&& 0 <= i < t < ops.len()
    &&& ops[i] == Op::JmpFwd
    &&& ops[t] == Op::JmpBck
    &&& level(ops, t + 1) == level(ops, i)
    &&& above(ops, i, t, level(ops, i))
}

/// A compilation that starts at slot 0 of `code` with no loop pending.
pub open spec fn begin(code: Seq<Instruction>) -> Scan {
    Scan { code, open: Seq::empty(), pc: 0, failed: false }
}

/// Slot `i` holds no jump, or a loop start that is still open, or one half
/// of a closed pair.
spec fn settled(s: Scan, ops: Seq<Op>, i: int) -> bool {
    let t = s.code[i].operand as int;
    &&& s.code[i].operator == Op::JmpFwd ==> s.open.contains(i as u16) || (i < t < s.pc
        && s.code[t] == (Instruction { operator: Op::JmpBck, operand: i as u16 }) && closes(
        ops,
        i,
        t,
    ))
    &&& s.code[i].operator == Op::JmpBck ==> 0 <= t < i && s.code[t] == (Instruction {
        operator: Op::JmpFwd,
        operand: i as u16,
    }) && !s.open.contains(t as u16)
}

/// What holds of a compilation of `src` into `code0` that is not rejected.
spec fn tracks(code0: Seq<Instruction>, s: Scan, src: Seq<char>) -> bool {
    &&& s.code.len() == PROGRAM_SIZE
    &&& s.pc == symbols(src)
    &&& s.pc <= PROGRAM_SIZE
    &&& s.open.len() == depth(src)
    &&& s.open.len() <= STACK_SIZE
    &&& s.open.len() == level(operators(src), s.pc)
    &&& forall|k: int|
        0 <= k < s.open.len() ==> (#[trigger] s.open[k]) < s.pc && s.code[s.open[k] as int].operator
            == Op::JmpFwd
    &&& forall|k1: int, k2: int|
        0 <= k1 < k2 < s.open.len() ==> (#[trigger] s.open[k1]) < (#[trigger] s.open[k2])
    &&& forall|k: int|
        0 <= k < s.open.len() ==> level(operators(src), (#[trigger] s.open[k]) as int) == k
            && above(operators(src), s.open[k] as int, s.pc, k)
    &&& forall|i: int| 0 <= i < s.pc ==> #[trigger] settled(s, operators(src), i)
    &&& forall|i: int| 0 <= i < s.pc ==> (#[trigger] s.code[i]).operator == operators(src)[i]
    &&& forall|i: int|
        0 <= i < s.pc && !operators(src)[i].is_jump() ==> (#[trigger] s.code[i]).operand
            == code0[i].operand
    &&& forall|i: int| s.pc <= i < PROGRAM_SIZE ==> (#[trigger] s.code[i]) == code0[i]
}

proof fn lemma_contains_push(q: Seq<u16>, v: u16, x: u16)
    ensures
        q.push(v).contains(x) <==> (q.contains(x) || x == v),
{
    if q.contains(x) {
        let k = choose|k: int| 0 <= k < q.len() && q[k] == x;
        assert(q.push(v)[k] == x);
    }
    if x == v {
        assert(q.push(v)[q.len() as int] == x);
    }
    if q.push(v).contains(x) {
        let k = choose|k: int| 0 <= k < q.push(v).len() && q.push(v)[k] == x;
        if k < q.len() {
            assert(q[k] == x);
        }
    }
}

proof fn lemma_contains_drop_last(q: Seq<u16>, x: u16)
    requires
        q.len() > 0,
        forall|k1: int, k2: int| 0 <= k1 < k2 < q.len() ==> (#[trigger] q[k1]) < (#[trigger] q[k2]),
    ensures
        q.drop_last().contains(x) <==> (q.contains(x) && x != q.last()),
{
    let d = q.drop_last();
    if d.contains(x) {
        let k = choose|k: int| 0 <= k < d.len() && d[k] == x;
        assert(q[k] == x);
        assert(q[k] < q[q.len() - 1]);
    }
    if q.contains(x) && x != q.last() {
        let k = choose|k: int| 0 <= k < q.len() && q[k] == x;
        assert(d[k] == x);
    }
}

proof fn lemma_level_push(ops: Seq<Op>, x: Op, m: int)
    requires
        m <= ops.len(),
    ensures
        level(ops.push(x), m) == level(ops, m),
    decreases m,
{
    if m > 0 {
        lemma_level_push(ops, x, m - 1);
    }
}

proof fn lemma_above_push(ops: Seq<Op>, x: Op, from: int, base: int)
    requires
        above(ops, from, ops.len() as int, base),
        level(ops.push(x), (ops.len() + 1) as int) > base,
    ensures
        above(ops.push(x), from, (ops.len() + 1) as int, base),
{
    assert forall|m: int| from < m <= ops.len() + 1 implies #[trigger] level(ops.push(x), m)
        > base by {
        if m <= ops.len() {
            lemma_level_push(ops, x, m);
            assert(level(ops, m) > base);
        }
    }
}

proof fn lemma_closes_push(ops: Seq<Op>, x: Op, i: int, t: int)
    requires
        closes(ops, i, t),
    ensures
        closes(ops.push(x), i, t),
{
    lemma_level_push(ops, x, t + 1);
    lemma_level_push(ops, x, i);
    assert forall|m: int| i < m <= t implies #[trigger] level(ops.push(x), m) > level(
        ops.push(x),
        i,
    ) by {
        lemma_level_push(ops, x, m);
        assert(level(ops, m) > level(ops, i));
    }
}

/// The depth of a source is the level behind its last operator.
pub proof fn lemma_depth_is_level(src: Seq<char>)
    ensures
        depth(src) == level(operators(src), symbols(src) as int),
    decreases src.len(),
{
    if src.len() > 0 {
        lemma_depth_is_level(src.drop_last());
        if op_of(src.last()) is Some {
            let before = operators(src.drop_last());
            lemma_level_push(before, op_of(src.last())->0, before.len() as int);
        }
    }
}

/// A scan from `begin(code0)` is rejected exactly when a prefix of the
/// source nests badly or the symbols outnumber the slots; otherwise it
/// keeps `tracks`.
proof fn lemma_scan_tracks(code0: Seq<Instruction>, src: Seq<char>)
    requires
        code0.len() == PROGRAM_SIZE,
    ensures
        scan(begin(code0), src).failed <==> !(nests(src) && symbols(src) <= PROGRAM_SIZE),
        !scan(begin(code0), src).failed ==> tracks(code0, scan(begin(code0), src), src),
    decreases src.len(),
{
    if src.len() > 0 {
        let c = src.last();
        lemma_scan_tracks(code0, src.drop_last());
        let p = scan(begin(code0), src.drop_last());
        let s = scan_step(p, c);
        let pc = p.pc;
        let before = operators(src.drop_last());
        let ops = operators(src);
        assert(s == scan(begin(code0), src));
        if p.failed || op_of(c) is None || pc >= PROGRAM_SIZE {
        } else {
            let op = op_of(c)->0;
            assert(ops == before.push(op));
            lemma_level_push(before, op, pc);
            assert(level(ops, pc + 1) == level(before, pc) + (if c == '[' {
                1int
            } else if c == ']' {
                -1int
            } else {
                0int
            }));
            if c == '[' {
                if p.open.len() < STACK_SIZE {
                    assert forall|k: int| 0 <= k < s.open.len() implies level(
                        ops,
                        (#[trigger] s.open[k]) as int,
                    ) == k && above(ops, s.open[k] as int, s.pc, k) by {
                        if k < p.open.len() {
                            lemma_level_push(before, op, p.open[k] as int);
                            lemma_above_push(before, op, p.open[k] as int, k);
                        }
                    }
                    assert forall|i: int| 0 <= i < s.pc implies #[trigger] settled(s, ops, i) by {
                        lemma_contains_push(p.open, pc as u16, i as u16);
                        if i < pc {
                            assert(settled(p, before, i));
                            lemma_contains_push(p.open, pc as u16, p.code[i].operand);
                            if closes(before, i, p.code[i].operand as int) {
                                lemma_closes_push(before, op, i, p.code[i].operand as int);
                            }
                        }
                    }
                    assert(tracks(code0, s, src));
                }
            } else if c == ']' {
                if p.open.len() > 0 {
                    let j = p.open.last();
                    let top = p.open.len() - 1;
                    assert(j == p.open[top]);
                    assert(j < pc && p.code[j as int].operator == Op::JmpFwd);
                    assert(p.code[j as int].operator == before[j as int]);
                    assert(closes(ops, j as int, pc)) by {
                        lemma_level_push(before, op, j as int);
                        assert(above(before, j as int, pc, top));
                        assert forall|m: int| j < m <= pc implies #[trigger] level(ops, m)
                            > top by {
                            lemma_level_push(before, op, m);
                            assert(level(before, m) > top);
                        }
                    }
                    assert forall|k: int| 0 <= k < s.open.len() implies level(
                        ops,
                        (#[trigger] s.open[k]) as int,
                    ) == k && above(ops, s.open[k] as int, s.pc, k) by {
                        assert(s.open[k] == p.open[k]);
                        lemma_level_push(before, op, p.open[k] as int);
                        lemma_above_push(before, op, p.open[k] as int, k);
                    }
                    assert forall|i: int| 0 <= i < s.pc implies #[trigger] settled(s, ops, i) by {
                        lemma_contains_drop_last(p.open, i as u16);
                        lemma_contains_drop_last(p.open, j);
                        if i < pc {
                            assert(settled(p, before, i));
                            lemma_contains_drop_last(p.open, p.code[i].operand);
                            if closes(before, i, p.code[i].operand as int) {
                                lemma_closes_push(before, op, i, p.code[i].operand as int);
                            }
                        }
                    }
                    assert(tracks(code0, s, src));
                }
            } else {
                assert forall|k: int| 0 <= k < s.open.len() implies level(
                    ops,
                    (#[trigger] s.open[k]) as int,
                ) == k && above(ops, s.open[k] as int, s.pc, k) by {
                    lemma_level_push(before, op, p.open[k] as int);
                    lemma_above_push(before, op, p.open[k] as int, k);
                }
                assert forall|i: int| 0 <= i < s.pc implies #[trigger] settled(s, ops, i) by {
                    if i < pc {
                        assert(settled(p, before, i));
                        if closes(before, i, p.code[i].operand as int) {
                            lemma_closes_push(before, op, i, p.code[i].operand as int);
                        }
                    }
                }
                assert(tracks(code0, s, src));
            }
        }
    }
}

/// Compilation into an array with nothing pending succeeds exactly on the
/// accepted sources. It then fills one slot for each symbol, in order, with
/// the symbol's operator, writes the terminator behind them, pairs every
/// loop start with the loop end that closes it, and leaves the other
/// operands and the slots behind the terminator as they were.
pub proof fn lemma_compile_outcome(code: Seq<Instruction>, src: Seq<char>)
    requires
        code.len() == PROGRAM_SIZE,
    ensures
        !compiled(code, Seq::empty(), src).failed <==> accepted(src),
        accepted(src) ==> ({
            let r = compiled(code, Seq::empty(), src);
            let n = symbols(src) as int;
            &&& r.code.len() == PROGRAM_SIZE
            &&& r.open.len() == 0
            &&& r.pc == n
            &&& linked(r.code, n)
            &&& forall|i: int|
                0 <= i < n && (#[trigger] r.code[i]).operator == Op::JmpFwd ==> closes(
                    operators(src),
                    i,
                    r.code[i].operand as int,
                )
            &&& r.code[n].operator == Op::End
            &&& forall|i: int| 0 <= i < n ==> (#[trigger] r.code[i]).operator == operators(src)[i]
            &&& forall|i: int|
                0 <= i <= n && !(#[trigger] r.code[i]).operator.is_jump() ==> r.code[i].operand
                    == code[i].operand
            &&& forall|i: int| n < i < PROGRAM_SIZE ==> (#[trigger] r.code[i]) == code[i]
        }),
{
    lemma_scan_tracks(code, src);
    let s = scan(begin(code), src);
    let r = compiled(code, Seq::empty(), src);
    if accepted(src) {
        let n = symbols(src) as int;
        assert forall|i: int| 0 <= i < n implies #[trigger] paired(r.code, n, i) by {
            assert(settled(s, operators(src), i));
        }
        assert forall|i: int| 0 <= i < n && (#[trigger] r.code[i]).operator
            == Op::JmpFwd implies closes(operators(src), i, r.code[i].operand as int) by {
            assert(settled(s, operators(src), i));
        }
    }
}

/// Within a source that nests, every prefix has between 0 and `STACK_SIZE`
/// loops open.
pub proof fn lemma_nests_prefix(src: Seq<char>, k: int)
    requires
        nests(src),
        0 <= k <= src.len(),
    ensures
        0 <= depth(src.take(k)) <= STACK_SIZE,
    decreases src.len(),
{
    if k == src.len() {
        assert(src.take(k) =~= src);
    } else {
        assert(src.drop_last().take(k) =~= src.take(k));
        lemma_nests_prefix(src.drop_last(), k);
    }
}

/// A source in which some prefix closes more loops than it opens is
/// rejected.
pub proof fn lemma_unmatched_end_rejected(code: Seq<Instruction>, src: Seq<char>, k: int)
    requires
        code.len() == PROGRAM_SIZE,
        0 <= k <= src.len(),
        depth(src.take(k)) < 0,
    ensures
        compiled(code, Seq::empty(), src).failed,
{
    lemma_compile_outcome(code, src);
    if nests(src) {
        lemma_nests_prefix(src, k);
    }
}

/// A source that opens more loops than it closes is rejected.
pub proof fn lemma_unmatched_start_rejected(code: Seq<Instruction>, src: Seq<char>)
    requires
        code.len() == PROGRAM_SIZE,
        depth(src) > 0,
    ensures
        compiled(code, Seq::empty(), src).failed,
{
    lemma_compile_outcome(code, src);
}

/// A source in which some prefix has more than `STACK_SIZE` loops open is
/// rejected.
pub proof fn lemma_deep_nesting_rejected(code: Seq<Instruction>, src: Seq<char>, k: int)
    requires
        code.len() == PROGRAM_SIZE,
        0 <= k <= src.len(),
        depth(src.take(k)) > STACK_SIZE,
    ensures
        compiled(code, Seq::empty(), src).failed,
{
    lemma_compile_outcome(code, src);
    if nests(src) {
        lemma_nests_prefix(src, k);
    }
}

/// A source of which every prefix has between 0 and `STACK_SIZE` loops
/// open nests.
pub proof fn lemma_prefixes_nest(src: Seq<char>)
    requires
        forall|k: int| 0 <= k <= src.len() ==> 0 <= depth(#[trigger] src.take(k)) <= STACK_SIZE,
    ensures
        nests(src),
    decreases src.len(),
{
    if src.len() > 0 {
        let rest = src.drop_last();
        assert forall|k: int| 0 <= k <= rest.len() implies 0 <= depth(#[trigger] rest.take(k))
            <= STACK_SIZE by {
            assert(rest.take(k) =~= src.take(k));
        }
        lemma_prefixes_nest(rest);
        assert(src.take(src.len() as int) =~= src);
    }
}

/// No character of `src` is a symbol.
pub open spec fn blank(src: Seq<char>) -> bool {
    forall|i: int| 0 <= i < src.len() ==> op_of(#[trigger] src[i]) is None
}

/// Scanning two sources one after the other is scanning them joined.
pub proof fn lemma_scan_concat(s: Scan, a: Seq<char>, b: Seq<char>)
    ensures
        scan(s, a + b) == scan(scan(s, a), b),
    decreases b.len(),
{
    if b.len() == 0 {
        assert(a + b =~= a);
    } else {
        assert((a + b).drop_last() =~= a + b.drop_last());
        lemma_scan_concat(s, a, b.drop_last());
    }
}

/// A source without symbols leaves a compilation as it is.
pub proof fn lemma_scan_blank(s: Scan, src: Seq<char>)
    requires
        blank(src),
    ensures
        scan(s, src) == s,
    decreases src.len(),
{
    if src.len() > 0 {
        lemma_scan_blank(s, src.drop_last());
    }
}

/// Characters that are no symbols, white space among them, can be put
/// before and behind a source without changing what it compiles to.
pub proof fn lemma_padding_ignored(
    code: Seq<Instruction>,
    open: Seq<u16>,
    before: Seq<char>,
    src: Seq<char>,
    after: Seq<char>,
)
    requires
        blank(before),
        blank(after),
    ensures
        compiled(code, open, before + src + after) == compiled(code, open, src),
{
    let s = Scan { code, open, pc: 0, failed: false };
    lemma_scan_concat(s, before + src, after);
    lemma_scan_blank(scan(s, before + src), after);
    lemma_scan_concat(s, before, src);
    lemma_scan_blank(s, before);
}

} // verus!
