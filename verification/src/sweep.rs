//! The size-sweep controller: visits byte budgets across a logarithmic range
//! in strictly increasing order and hands out one measurement cell per
//! (container shape, ownership mode) pair at each size.

use vstd::prelude::*;

use vstd::arithmetic::div_mod::lemma_div_pos_is_pos;
use vstd::arithmetic::div_mod::lemma_fundamental_div_mod;
use vstd::arithmetic::div_mod::lemma_mod_bound;
use vstd::arithmetic::mul::lemma_mul_inequality;
use vstd::arithmetic::mul::lemma_mul_basics;
use vstd::arithmetic::mul::lemma_mul_is_commutative;
use vstd::arithmetic::mul::lemma_mul_is_distributive_add_other_way;
use vstd::arithmetic::mul::lemma_mul_nonnegative;
use vstd::arithmetic::mul::lemma_mul_strict_inequality;
use vstd::arithmetic::power2::lemma2_to64;
use vstd::arithmetic::power2::lemma2_to64_rest;
use vstd::arithmetic::power2::lemma_pow2_strictly_increases;
use vstd::arithmetic::power2::pow2;
use vstd::bits::lemma_u64_shl_is_mul;

verus! {

/// Each stored value occupies eight bytes, whatever the container shape, so
/// a byte budget affords `budget / 8` elements.
pub const VALUE_BYTES: u64 = 8;

/// How many measurement cells one size visits: five shapes, two modes.
pub const CELLS_PER_SIZE: u64 = 10;

/// The largest admissible exponent: a byte budget must fit in 64 bits.
pub const MAX_POW2: u32 = 63;

/// Why a sweep configuration was rejected.
#[derive(Clone, Copy, Debug, PartialEq, Eq, Structural)]
pub enum ConfigError {
    /// A zero step would keep the sweep at its start size forever.
    StepZero,
    /// A start above the end would make the sweep empty.
    StartAboveEnd,
    /// An end beyond `MAX_POW2` would overflow the byte budget.
    EndTooLarge,
}

/// A validated sweep configuration: byte budgets run from `2^start_pow2` to
/// at most `2^end_pow2`, multiplying by `2^step_pow2` between sizes.
#[derive(Clone, Copy, Debug, PartialEq, Eq, Structural)]
pub struct SweepConfig {
    start_pow2: u32,
    end_pow2: u32,
    step_pow2: u32,
}

impl SweepConfig {
    /// The exponent of the first byte budget.
    pub closed spec fn start(self) -> int {
        self.start_pow2 as int
    }

    /// The exponent no byte budget may exceed.
    pub closed spec fn end(self) -> int {
        self.end_pow2 as int
    }

    /// The exponent increment between consecutive sizes.
    pub closed spec fn step(self) -> int {
        self.step_pow2 as int
    }

    /// What validation established: a positive step, an ordered range, and
    /// budgets that fit in 64 bits.
    pub open spec fn wf(self) -> bool {
        1 <= self.step() && 0 <= self.start() <= self.end() <= MAX_POW2
    }

    /// How many sizes the sweep visits.
    pub open spec fn size_count(self) -> int {
        (self.end() - self.start()) / self.step() + 1
    }

    /// The exponent of size number `i`.
    pub open spec fn exponent_at(self, i: int) -> int {
        self.start() + i * self.step()
    }

    /// The byte budget of size number `i`.
    pub open spec fn budget_at(self, i: int) -> int {
        pow2(self.exponent_at(i) as nat) as int
    }

    /// The element count of size number `i`: eight bytes per value.
    pub open spec fn elements_at(self, i: int) -> int {
        self.budget_at(i) / (VALUE_BYTES as int)
    }

    /// Validates the three sweep parameters. Success exactly when the step
    /// is positive, the range is ordered, and the end exponent fits; each
    /// rejection names the first rule broken.
    pub fn new(start_pow2: u32, end_pow2: u32, step_pow2: u32) -> (r: Result<
        SweepConfig,
        ConfigError,
    >)
        ensures
            r is Ok <==> (step_pow2 >= 1 && start_pow2 <= end_pow2 && end_pow2 <= MAX_POW2),
            step_pow2 == 0 ==> r == Err::<SweepConfig, ConfigError>(ConfigError::StepZero),
            step_pow2 >= 1 && start_pow2 > end_pow2 ==> r == Err::<SweepConfig, ConfigError>(
                ConfigError::StartAboveEnd,
            ),
            step_pow2 >= 1 && start_pow2 <= end_pow2 && end_pow2 > MAX_POW2 ==> r == Err::<
                SweepConfig,
                ConfigError,
            >(ConfigError::EndTooLarge),
            r matches Ok(c) ==> c.wf() && c.start() == start_pow2 && c.end() == end_pow2
                && c.step() == step_pow2,
    {
        if step_pow2 == 0 {
            Err(ConfigError::StepZero)
        } else if start_pow2 > end_pow2 {
            Err(ConfigError::StartAboveEnd)
        } else if end_pow2 > MAX_POW2 {
            Err(ConfigError::EndTooLarge)
        } else {
            Ok(SweepConfig { start_pow2, end_pow2, step_pow2 })
        }
    }

    /// The byte budgets the sweep visits, first to last.
    pub fn byte_budgets(&self) -> (r: Vec<u64>)
        requires
            self.wf(),
        ensures
            r@.len() == self.size_count(),
            forall|i: int| 0 <= i < r@.len() ==> r@[i] == self.budget_at(i),
    {
        proof {
            lemma_div_pos_is_pos(self.end() - self.start(), self.step());
            lemma_mul_basics(self.step());
        }
        let mut out: Vec<u64> = Vec::new();
        let mut e: u64 = self.start_pow2 as u64;
        while e <= self.end_pow2 as u64
            invariant
                self.wf(),
                e == self.start() + out@.len() * self.step(),
                e <= self.end() + self.step(),
                out@.len() <= self.size_count(),
                e <= self.end() ==> out@.len() < self.size_count(),
                forall|i: int| 0 <= i < out@.len() ==> out@[i] == self.budget_at(i),
            decreases self.end() + self.step() - e,
        {
            let ghost k: int = out@.len() as int;
            proof {
                lemma_le_div(self.end() - self.start(), self.step(), k);
                lemma_mul_is_distributive_add_other_way(self.step(), k, 1);
            }
            out.push(pow2_u64(e));
            e = e + self.step_pow2 as u64;
            proof {
                if e <= self.end() {
                    lemma_le_div(self.end() - self.start(), self.step(), k + 1);
                }
            }
        }
        proof {
            let k = out@.len() as int;
            if k < self.size_count() {
                lemma_mul_le_div(self.end() - self.start(), self.step(), k);
            }
        }
        out
    }
}

/// `k * step <= x` forces `k <= x / step`.
proof fn lemma_le_div(x: int, step: int, k: int)
    requires
        step >= 1,
        0 <= x,
        0 <= k,
        k * step <= x,
    ensures
        k <= x / step,
{
    lemma_fundamental_div_mod(x, step);
    lemma_mod_bound(x, step);
    lemma_div_pos_is_pos(x, step);
    if k > x / step {
        lemma_mul_inequality(x / step + 1, k, step);
        lemma_mul_is_distributive_add_other_way(step, x / step, 1);
        lemma_mul_is_commutative(step, x / step);
        lemma_mul_basics(step);
    }
}

/// `k <= x / step` forces `k * step <= x`.
proof fn lemma_mul_le_div(x: int, step: int, k: int)
    requires
        step >= 1,
        0 <= x,
        0 <= k,
        k <= x / step,
    ensures
        k * step <= x,
{
    lemma_fundamental_div_mod(x, step);
    lemma_mod_bound(x, step);
    lemma_div_pos_is_pos(x, step);
    lemma_mul_inequality(k, x / step, step);
    lemma_mul_is_commutative(step, x / step);
}

/// Computes `2^e` for an exponent that fits.
fn pow2_u64(e: u64) -> (r: u64)
    requires
        e <= 63,
    ensures
        r == pow2(e as nat),
{
    proof {
        lemma2_to64();
        lemma2_to64_rest();
        if e < 64 {
            lemma_pow2_strictly_increases(e as nat, 64);
        }
        lemma_u64_shl_is_mul(1u64, e);
    }
    1u64 << e
}

/// Sizes are visited in strictly increasing order: a later size always has
/// a strictly larger byte budget.
pub proof fn lemma_budgets_strictly_increase(c: SweepConfig, i: int, j: int)
    requires
        c.wf(),
        0 <= i < j,
    ensures
        c.budget_at(i) < c.budget_at(j),
{
    lemma_mul_nonnegative(i, c.step());
    lemma_mul_strict_inequality(i, j, c.step());
    lemma_pow2_strictly_increases(c.exponent_at(i) as nat, c.exponent_at(j) as nat);
}

/// The five container shapes a sweep measures, in catalog order.
#[derive(Clone, Copy, Debug, PartialEq, Eq, Structural)]
pub enum ContainerKind {
    /// Contiguous resizable array.
    Array,
    /// Double-ended contiguous queue.
    Deque,
    /// Doubly-linked list.
    List,
    /// Hash-based set.
    Hashed,
    /// Ordered, balanced-tree-based set.
    Ordered,
}

/// Whether the reduction consumes its input container or borrows it.
#[derive(Clone, Copy, Debug, PartialEq, Eq, Structural)]
pub enum OwnershipMode {
    /// The kernel borrows the container.
    ByRef,
    /// The kernel consumes the container.
    ByMove,
}

/// One measurement cell: which shape, which ownership mode, and the input
/// size in bytes and in elements.
#[derive(Clone, Copy, Debug, PartialEq, Eq, Structural)]
pub struct SweepCell {
    pub kind: ContainerKind,
    pub mode: OwnershipMode,
    pub byte_budget: u64,
    pub element_count: u64,
}

/// The shape visited at position `p` of the catalog order.
pub open spec fn kind_at(p: int) -> ContainerKind {
    if p == 0 {
        ContainerKind::Array
    } else if p == 1 {
        ContainerKind::Deque
    } else if p == 2 {
        ContainerKind::List
    } else if p == 3 {
        ContainerKind::Hashed
    } else {
        ContainerKind::Ordered
    }
}

/// Cell number `n` of a sweep: sizes ascend outermost; within one size the
/// five by-reference cells come first, then the five by-value cells, each
/// run in catalog order.
pub open spec fn cell_at(c: SweepConfig, n: int) -> SweepCell {
    let s = n / (CELLS_PER_SIZE as int);
    let p = n % (CELLS_PER_SIZE as int);
    SweepCell {
        kind: kind_at(p % 5),
        mode: if p < 5 {
            OwnershipMode::ByRef
        } else {
            OwnershipMode::ByMove
        },
        byte_budget: c.budget_at(s) as u64,
        element_count: c.elements_at(s) as u64,
    }
}

/// How many cells the whole sweep visits.
pub open spec fn total_cells(c: SweepConfig) -> int {
    c.size_count() * (CELLS_PER_SIZE as int)
}

/// Sweep progress: waiting to start, mid-sweep, or finished.
#[derive(Clone, Copy, Debug, PartialEq, Eq, Structural)]
pub enum SweepPhase {
    Idle,
    Sweeping,
    Done,
}

/// Drives one sweep: hands out measurement cells one at a time, in sweep
/// order, never skipping or reordering, and reaches `Done` exactly when
/// every cell has been visited.
pub struct SweepController {
    config: SweepConfig,
    next: u64,
    phase: SweepPhase,
}

impl SweepController {
    /// The configuration this sweep runs.
    pub closed spec fn config_spec(self) -> SweepConfig {
        self.config
    }

    /// How many cells have been handed out.
    pub closed spec fn position(self) -> int {
        self.next as int
    }

    /// The controller's phase.
    pub closed spec fn phase_spec(self) -> SweepPhase {
        self.phase
    }

    /// The controller's well-formedness: the position never passes the cell
    /// total, `Idle` means untouched, and `Done` means exhausted.
    pub open spec fn inv(self) -> bool {
        &&& self.config_spec().wf()
        &&& 0 <= self.position() <= total_cells(self.config_spec())
        &&& (self.phase_spec() is Idle ==> self.position() == 0)
        &&& (self.phase_spec() is Done <==> self.position() == total_cells(self.config_spec()))
    }

    /// A fresh controller, idle at the first cell.
    pub fn new(config: SweepConfig) -> (c: SweepController)
        requires
            config.wf(),
        ensures
            c.inv(),
            c.config_spec() == config,
            c.position() == 0,
            c.phase_spec() is Idle,
    {
        proof {
            lemma_div_pos_is_pos(config.end() - config.start(), config.step());
        }
        SweepController { config, next: 0, phase: SweepPhase::Idle }
    }

    /// The phase the sweep is in.
    pub fn phase(&self) -> (p: SweepPhase)
        ensures
            p == self.phase_spec(),
    {
        self.phase
    }

    /// Hands out the next measurement cell, or `None` once the sweep is
    /// over. Cells come in exactly the order `cell_at` fixes.
    pub fn advance(&mut self) -> (r: Option<SweepCell>)
        requires
            old(self).inv(),
        ensures
            final(self).inv(),
            final(self).config_spec() == old(self).config_spec(),
            old(self).position() < total_cells(old(self).config_spec()) ==> {
                &&& r == Some(cell_at(old(self).config_spec(), old(self).position()))
                &&& final(self).position() == old(self).position() + 1
                &&& !(final(self).phase_spec() is Idle)
            },
            old(self).position() == total_cells(old(self).config_spec()) ==> {
                &&& r is None
                &&& final(self).position() == old(self).position()
                &&& final(self).phase_spec() is Done
            },
    {
        let cfg = self.config;
        proof {
            lemma_div_pos_is_pos(cfg.end() - cfg.start(), cfg.step());
        }
        let count: u64 = ((cfg.end_pow2 - cfg.start_pow2) / cfg.step_pow2) as u64 + 1;
        let total: u64 = count * CELLS_PER_SIZE;
        if self.next >= total {
            None
        } else {
            let n: u64 = self.next;
            let s: u64 = n / CELLS_PER_SIZE;
            let p: u64 = n % CELLS_PER_SIZE;
            proof {
                lemma_mod_bound(n as int, CELLS_PER_SIZE as int);
                lemma_fundamental_div_mod(n as int, CELLS_PER_SIZE as int);
                lemma_div_pos_is_pos(n as int, CELLS_PER_SIZE as int);
                if s as int >= cfg.size_count() {
                    lemma_mul_inequality(cfg.size_count(), s as int, CELLS_PER_SIZE as int);
                }
                lemma_mul_le_div(cfg.end() - cfg.start(), cfg.step(), s as int);
            }
            let pm: u64 = p % 5;
            let kind = if pm == 0 {
                ContainerKind::Array
            } else if pm == 1 {
                ContainerKind::Deque
            } else if pm == 2 {
                ContainerKind::List
            } else if pm == 3 {
                ContainerKind::Hashed
            } else {
                ContainerKind::Ordered
            };
            let mode = if p < 5 {
                OwnershipMode::ByRef
            } else {
                OwnershipMode::ByMove
            };
            let e: u64 = cfg.start_pow2 as u64 + s * cfg.step_pow2 as u64;
            let budget: u64 = pow2_u64(e);
            let elements: u64 = budget / VALUE_BYTES;
            self.next = n + 1;
            self.phase = if n + 1 == total {
                SweepPhase::Done
            } else {
                SweepPhase::Sweeping
            };
            Some(SweepCell { kind, mode, byte_budget: budget, element_count: elements })
        }
    }
}

} // verus!
