//! Rounds of visits, reasoned about in stretches.
//!
//! In the microsteps of the instruction set at most two registers touch
//! the bus. The others only count, or do nothing, and a stretch of them
//! can be passed over in one step of a proof.

use vstd::prelude::*;
use crate::control_cables::{CONTROL_CABLES_SIZE, REGISTERS_NUM};
use crate::cpu_component::{asserted, reg_dec, reg_in, reg_inc, reg_out, wrapping};
use crate::machine::{
    all_done, sweep, visit_alu, visit_ram, visit_register, visit_registers, MachineModel,
    ProgressModel, COMPONENTS_NUM,
};

verus! {

/// The lines of a microstep are asserted and no others.
pub proof fn lemma_asserted(step: Seq<usize>)
    ensures
        asserted(step).len() == CONTROL_CABLES_SIZE,
        forall|i: int|
            0 <= i < CONTROL_CABLES_SIZE ==> (#[trigger] asserted(step)[i] <==> step.contains(
                i as usize,
            )),
{
    assert forall|i: int| 0 <= i < CONTROL_CABLES_SIZE implies (#[trigger] asserted(step)[i]
        <==> step.contains(i as usize)) by {
        if asserted(step)[i] {
            let k = choose|k: int| 0 <= k < step.len() && step[k] == i;
            assert(step[k] == i as usize);
        }
        if step.contains(i as usize) {
            let k = choose|k: int| 0 <= k < step.len() && step[k] == i as usize;
            assert(0 <= k < step.len() && step[k] == i);
        }
    }
}

/// Whether register `r` touches the bus: its In or its Out line is
/// asserted.
pub open spec fn uses_bus(lines: Seq<bool>, r: int) -> bool {
    lines[reg_in(r as usize) as int] || lines[reg_out(r as usize) as int]
}

/// The word of register `r` after it has counted up and down as its Inc
/// and Dec lines say.
pub open spec fn counted(lines: Seq<bool>, r: int, value: u16) -> u16 {
    let up = if lines[reg_inc(r as usize) as int] {
        wrapping(value, 1)
    } else {
        value
    };
    if lines[reg_dec(r as usize) as int] {
        wrapping(up, -1)
    } else {
        up
    }
}

/// The registers after those from `lo` to `hi - 1` have counted.
pub open spec fn counted_registers(lines: Seq<bool>, registers: Seq<u16>, lo: int, hi: int) -> Seq<
    u16,
> {
    Seq::new(
        REGISTERS_NUM as nat,
        |r: int|
            if lo <= r < hi {
                counted(lines, r, registers[r])
            } else {
                registers[r]
            },
    )
}

/// The registers after register `r` has taken the word `value` and all
/// others have counted.
pub open spec fn settled(lines: Seq<bool>, registers: Seq<u16>, r: int, value: u16) -> Seq<u16> {
    Seq::new(
        REGISTERS_NUM as nat,
        |k: int|
            if k == r {
                value
            } else {
                counted(lines, k, registers[k])
            },
    )
}

/// The progress with component `k` marked as done.
pub open spec fn marked(p: ProgressModel, k: int) -> ProgressModel {
    ProgressModel { done: p.done.update(k, true), ..p }
}

/// The progress with the registers `lo` to `hi - 1` marked as done.
pub open spec fn marked_range(p: ProgressModel, lo: int, hi: int) -> ProgressModel {
    ProgressModel {
        done: Seq::new(COMPONENTS_NUM as nat, |k: int| p.done[k] || lo < k <= hi),
        ..p
    }
}

/// Whether the progress is that of a round in which no register has been
/// visited yet.
pub open spec fn registers_wait(p: ProgressModel) -> bool {
    &&& p.done.len() == COMPONENTS_NUM
    &&& p.fault is None
    &&& forall|k: int| 1 <= k <= REGISTERS_NUM ==> !p.done[k]
}

/// Visits to the registers `lo` to `hi - 1`, in this order.
pub open spec fn visit_range(m: MachineModel, p: ProgressModel, lo: nat, hi: nat) -> (
    MachineModel,
    ProgressModel,
)
    decreases hi,
{
    if hi <= lo {
        (m, p)
    } else {
        let (before, progress) = visit_range(m, p, lo, (hi - 1) as nat);
        visit_register(before, progress, hi - 1)
    }
}

/// The whole register file is one stretch.
pub proof fn lemma_visit_all(m: MachineModel, p: ProgressModel, n: nat)
    ensures
        visit_registers(m, p, n) == visit_range(m, p, 0, n),
    decreases n,
{
    if n > 0 {
        lemma_visit_all(m, p, (n - 1) as nat);
    }
}

/// Visiting stretch after stretch.
pub proof fn lemma_visit_chain(m: MachineModel, p: ProgressModel, lo: nat, mid: nat, hi: nat)
    requires
        lo <= mid <= hi,
    ensures
        visit_range(m, p, lo, hi) == visit_range(
            visit_range(m, p, lo, mid).0,
            visit_range(m, p, lo, mid).1,
            mid,
            hi,
        ),
    decreases hi,
{
    if mid < hi {
        lemma_visit_chain(m, p, lo, mid, (hi - 1) as nat);
    }
}

/// One register is a stretch of its own.
pub proof fn lemma_visit_one(m: MachineModel, p: ProgressModel, r: nat)
    ensures
        visit_range(m, p, r, r + 1) == visit_register(m, p, r as int),
{
    reveal_with_fuel(visit_range, 2);
}

/// A visit to a register changes nothing but that register, the bus, the
/// register's mark and the mailbox.
pub proof fn lemma_visit_register_frame(m: MachineModel, p: ProgressModel, r: int)
    requires
        0 <= r < REGISTERS_NUM,
        m.registers.len() == REGISTERS_NUM,
        p.done.len() == COMPONENTS_NUM,
    ensures
        visit_register(m, p, r).0.registers.len() == REGISTERS_NUM,
        forall|k: int|
            0 <= k < REGISTERS_NUM && k != r ==> visit_register(m, p, r).0.registers[k]
                == m.registers[k],
        visit_register(m, p, r).0.lines == m.lines,
        visit_register(m, p, r).0.alu == m.alu,
        visit_register(m, p, r).0.ram == m.ram,
        visit_register(m, p, r).0.control == m.control,
        visit_register(m, p, r).1.done.len() == COMPONENTS_NUM,
        forall|k: int|
            0 <= k < COMPONENTS_NUM && k != r + 1 ==> visit_register(m, p, r).1.done[k]
                == p.done[k],
        visit_register(m, p, r).1.fault == p.fault,
        visit_register(m, p, r).1.output == p.output,
        visit_register(m, p, r).1.asked == p.asked,
{
}

/// A register that does not touch the bus takes its step at once: it
/// counts, and nothing else changes.
pub proof fn lemma_local_register(m: MachineModel, p: ProgressModel, r: int)
    requires
        0 <= r < REGISTERS_NUM,
        m.registers.len() == REGISTERS_NUM,
        p.done.len() == COMPONENTS_NUM,
        p.fault is None,
        !p.done[r + 1],
        !uses_bus(m.lines, r),
    ensures
        visit_register(m, p, r) == (
            MachineModel {
                registers: m.registers.update(r, counted(m.lines, r, m.registers[r])),
                ..m
            },
            marked(p, r + 1),
        ),
{
}

/// A stretch of registers that do not touch the bus: each counts, and
/// nothing else changes.
pub proof fn lemma_local_range(m: MachineModel, p: ProgressModel, lo: nat, hi: nat)
    requires
        lo <= hi <= REGISTERS_NUM,
        m.registers.len() == REGISTERS_NUM,
        p.done.len() == COMPONENTS_NUM,
        p.fault is None,
        forall|k: int| lo < k <= hi ==> !p.done[k],
        forall|r: int| lo <= r < hi ==> !uses_bus(m.lines, r),
    ensures
        visit_range(m, p, lo, hi) == (
            MachineModel {
                registers: counted_registers(m.lines, m.registers, lo as int, hi as int),
                ..m
            },
            marked_range(p, lo as int, hi as int),
        ),
    decreases hi,
{
    if lo < hi {
        lemma_local_range(m, p, lo, (hi - 1) as nat);
        let before = MachineModel {
            registers: counted_registers(m.lines, m.registers, lo as int, hi - 1),
            ..m
        };
        let progress = marked_range(p, lo as int, hi - 1);
        lemma_local_register(before, progress, hi - 1);
        assert(before.registers.update(
            hi - 1,
            counted(m.lines, hi - 1, before.registers[hi - 1]),
        ) =~= counted_registers(m.lines, m.registers, lo as int, hi as int));
        assert(marked(progress, hi as int).done =~= marked_range(p, lo as int, hi as int).done);
    } else {
        assert(counted_registers(m.lines, m.registers, lo as int, hi as int) =~= m.registers);
        assert(marked_range(p, lo as int, hi as int).done =~= p.done);
    }
}

/// Registers that have taken their steps are passed over.
pub proof fn lemma_done_range(m: MachineModel, p: ProgressModel, lo: nat, hi: nat)
    requires
        lo <= hi <= REGISTERS_NUM,
        forall|k: int| lo < k <= hi ==> p.done[k],
    ensures
        visit_range(m, p, lo, hi) == (m, p),
    decreases hi,
{
    if lo < hi {
        lemma_done_range(m, p, lo, (hi - 1) as nat);
        assert(p.done[hi as int]);
    }
}

/// A round over the registers of which only `r` may touch the bus, none
/// visited before: the registers below `r` count, `r` is visited, the
/// registers above `r` count.
pub proof fn lemma_round_of_one(m: MachineModel, p: ProgressModel, r: int)
    requires
        0 <= r < REGISTERS_NUM,
        m.registers.len() == REGISTERS_NUM,
        registers_wait(p),
        forall|k: int| 0 <= k < REGISTERS_NUM && k != r ==> !uses_bus(m.lines, k),
    ensures
        ({
            let (reached, progress) = visit_register(
                MachineModel { registers: counted_registers(m.lines, m.registers, 0, r), ..m },
                marked_range(p, 0, r),
                r,
            );
            visit_registers(m, p, REGISTERS_NUM as nat) == (
                MachineModel {
                    registers: counted_registers(
                        m.lines,
                        reached.registers,
                        r + 1,
                        REGISTERS_NUM as int,
                    ),
                    ..reached
                },
                marked_range(progress, r + 1, REGISTERS_NUM as int),
            )
        }),
{
    let n = REGISTERS_NUM as nat;
    let before = MachineModel { registers: counted_registers(m.lines, m.registers, 0, r), ..m };
    let pb = marked_range(p, 0, r);
    let (reached, progress) = visit_register(before, pb, r);
    lemma_visit_all(m, p, n);
    lemma_local_range(m, p, 0, r as nat);
    lemma_visit_one(before, pb, r as nat);
    lemma_visit_chain(m, p, 0, r as nat, (r + 1) as nat);
    lemma_visit_register_frame(before, pb, r);
    lemma_local_range(reached, progress, (r + 1) as nat, n);
    lemma_visit_chain(m, p, 0, (r + 1) as nat, n);
}

/// A round over the registers of which only `a` and `b` may touch the
/// bus, none visited before: the registers count stretch by stretch, and
/// `a` and `b` are visited in between.
pub proof fn lemma_round_of_two(m: MachineModel, p: ProgressModel, a: int, b: int)
    requires
        0 <= a < b < REGISTERS_NUM,
        m.registers.len() == REGISTERS_NUM,
        registers_wait(p),
        forall|k: int| 0 <= k < REGISTERS_NUM && k != a && k != b ==> !uses_bus(m.lines, k),
    ensures
        ({
            let (first, first_progress) = visit_register(
                MachineModel { registers: counted_registers(m.lines, m.registers, 0, a), ..m },
                marked_range(p, 0, a),
                a,
            );
            let (second, second_progress) = visit_register(
                MachineModel {
                    registers: counted_registers(m.lines, first.registers, a + 1, b),
                    ..first
                },
                marked_range(first_progress, a + 1, b),
                b,
            );
            visit_registers(m, p, REGISTERS_NUM as nat) == (
                MachineModel {
                    registers: counted_registers(
                        m.lines,
                        second.registers,
                        b + 1,
                        REGISTERS_NUM as int,
                    ),
                    ..second
                },
                marked_range(second_progress, b + 1, REGISTERS_NUM as int),
            )
        }),
{
    let n = REGISTERS_NUM as nat;
    let before_a = MachineModel { registers: counted_registers(m.lines, m.registers, 0, a), ..m };
    let pa = marked_range(p, 0, a);
    let (first, first_progress) = visit_register(before_a, pa, a);
    lemma_visit_all(m, p, n);
    lemma_local_range(m, p, 0, a as nat);
    lemma_visit_one(before_a, pa, a as nat);
    lemma_visit_chain(m, p, 0, a as nat, (a + 1) as nat);
    lemma_visit_register_frame(before_a, pa, a);
    lemma_local_range(first, first_progress, (a + 1) as nat, b as nat);
    lemma_visit_chain(m, p, 0, (a + 1) as nat, b as nat);
    let before_b = MachineModel {
        registers: counted_registers(m.lines, first.registers, a + 1, b),
        ..first
    };
    let pb = marked_range(first_progress, a + 1, b);
    let (second, second_progress) = visit_register(before_b, pb, b);
    lemma_visit_one(before_b, pb, b as nat);
    lemma_visit_chain(m, p, 0, b as nat, (b + 1) as nat);
    lemma_visit_register_frame(before_b, pb, b);
    lemma_local_range(second, second_progress, (b + 1) as nat, n);
    lemma_visit_chain(m, p, 0, (b + 1) as nat, n);
}

/// A round in which every register but `r` has taken its step is a visit
/// to `r`.
pub proof fn lemma_round_of_latecomer(m: MachineModel, p: ProgressModel, r: int)
    requires
        0 <= r < REGISTERS_NUM,
        forall|k: int| 1 <= k <= REGISTERS_NUM && k != r + 1 ==> p.done[k],
        m.registers.len() == REGISTERS_NUM,
        p.done.len() == COMPONENTS_NUM,
    ensures
        visit_registers(m, p, REGISTERS_NUM as nat) == visit_register(m, p, r),
{
    let n = REGISTERS_NUM as nat;
    lemma_visit_all(m, p, n);
    lemma_done_range(m, p, 0, r as nat);
    lemma_visit_one(m, p, r as nat);
    lemma_visit_chain(m, p, 0, r as nat, (r + 1) as nat);
    lemma_visit_register_frame(m, p, r);
    let (reached, progress) = visit_register(m, p, r);
    lemma_done_range(reached, progress, (r + 1) as nat, n);
    lemma_visit_chain(m, p, 0, (r + 1) as nat, n);
}

/// A round in which every register has taken its step passes over them.
pub proof fn lemma_round_of_none(m: MachineModel, p: ProgressModel)
    requires
        forall|k: int| 1 <= k <= REGISTERS_NUM ==> p.done[k],
    ensures
        visit_registers(m, p, REGISTERS_NUM as nat) == (m, p),
{
    lemma_visit_all(m, p, REGISTERS_NUM as nat);
    lemma_done_range(m, p, 0, REGISTERS_NUM as nat);
}

/// Once every component has taken its step, a further round of visits
/// changes nothing.
pub proof fn lemma_sweep_when_done(m: MachineModel, p: ProgressModel, input: Option<u16>)
    requires
        all_done(p.done),
    ensures
        sweep(m, p, input) == (m, p),
{
    assert(visit_ram(m, p, input) == (m, p));
    lemma_round_of_none(m, p);
    assert(visit_alu(m, p) == (m, p));
}

} // verus!
