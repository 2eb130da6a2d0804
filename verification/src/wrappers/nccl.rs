//! The process group: rendezvous store, group formation, collectives, and
//! the operation-batch state machine, modeled over plain integer buffers so
//! that the value every rank ends up with is stated and proved.

use crate::buffer::{copy_values, Buffer};
use crate::device::Device;
use crate::error::TchError;
use vstd::prelude::*;

verus! {

/// The element-wise combining function of a reducing collective.
#[derive(Debug, Clone, Copy, PartialEq, Eq, Structural)]
pub enum ReduceOpType {
    Sum,
    Avg,
    Product,
    Min,
    Max,
    BAnd,
    BOr,
    BXOr,
    PremulSum,
}

/// The discriminant the transport expects for each reduction operator.
pub open spec fn op_code(op: ReduceOpType) -> int {
    match op {
        ReduceOpType::Sum => 0,
        ReduceOpType::Avg => 1,
        ReduceOpType::Product => 2,
        ReduceOpType::Min => 3,
        ReduceOpType::Max => 4,
        ReduceOpType::BAnd => 5,
        ReduceOpType::BOr => 6,
        ReduceOpType::BXOr => 7,
        ReduceOpType::PremulSum => 8,
    }
}

impl ReduceOpType {
    /// The transport discriminant of this operator, exactly `op_code`.
    pub fn c_uchar(self) -> (r: u8)
        ensures
            r == op_code(self),
    {
        match self {
            ReduceOpType::Sum => 0,
            ReduceOpType::Avg => 1,
            ReduceOpType::Product => 2,
            ReduceOpType::Min => 3,
            ReduceOpType::Max => 4,
            ReduceOpType::BAnd => 5,
            ReduceOpType::BOr => 6,
            ReduceOpType::BXOr => 7,
            ReduceOpType::PremulSum => 8,
        }
    }
}

/// One combining step. `Avg` accumulates like `Sum`; the division by the
/// rank count happens once, at the end of the fold. `PremulSum` sums values
/// the caller has already premultiplied.
pub open spec fn op_step(op: ReduceOpType, a: i64, b: i64) -> int {
    match op {
        ReduceOpType::Sum => a + b,
        ReduceOpType::Avg => a + b,
        ReduceOpType::PremulSum => a + b,
        ReduceOpType::Product => a * b,
        ReduceOpType::Min => if a <= b {
            a as int
        } else {
            b as int
        },
        ReduceOpType::Max => if a >= b {
            a as int
        } else {
            b as int
        },
        ReduceOpType::BAnd => (a & b) as int,
        ReduceOpType::BOr => (a | b) as int,
        ReduceOpType::BXOr => (a ^ b) as int,
    }
}

/// The left fold of one element position's values across ranks.
pub open spec fn fold_vals(op: ReduceOpType, s: Seq<i64>) -> int
    decreases s.len(),
{
    if s.len() == 0 {
        0
    } else if s.len() == 1 {
        s[0] as int
    } else {
        op_step(op, fold_vals(op, s.drop_last()) as i64, s.last())
    }
}

/// Every intermediate fold result fits in the element type, so the machine
/// fold equals the mathematical one.
pub open spec fn fold_fits(op: ReduceOpType, s: Seq<i64>) -> bool
    decreases s.len(),
{
    if s.len() <= 1 {
        true
    } else {
        fold_fits(op, s.drop_last()) && i64::MIN <= fold_vals(op, s) <= i64::MAX
    }
}

/// Division truncating toward zero, for a positive divisor: the quotient the
/// machine's signed division produces.
pub open spec fn div_toward_zero(x: int, d: int) -> int {
    if x >= 0 {
        x / d
    } else {
        -((-x) / d)
    }
}

/// The value every rank holds after a reducing collective combines one
/// element position: the fold of all ranks' values, divided by the rank
/// count for `Avg`.
pub open spec fn combined(op: ReduceOpType, s: Seq<i64>) -> int {
    if op == ReduceOpType::Avg {
        div_toward_zero(fold_vals(op, s), s.len() as int)
    } else {
        fold_vals(op, s)
    }
}

/// A fold that fits stays within the element type at every prefix.
proof fn lemma_fold_fits_prefix(op: ReduceOpType, s: Seq<i64>, j: int)
    requires
        fold_fits(op, s),
        1 <= j <= s.len(),
    ensures
        fold_fits(op, s.take(j)),
        i64::MIN <= fold_vals(op, s.take(j)) <= i64::MAX,
    decreases s.len(),
{
    if j == s.len() {
        assert(s.take(j) =~= s);
        if s.len() == 1 {
            assert(fold_vals(op, s) == s[0] as int);
        }
    } else {
        assert(s.take(s.len() - 1) =~= s.drop_last());
        lemma_fold_fits_prefix(op, s.drop_last(), j);
        assert(s.drop_last().take(j) =~= s.take(j));
    }
}

/// One combining step of the fold, on machine integers.
fn op_step_exec(op: ReduceOpType, a: i64, b: i64) -> (r: i64)
    requires
        i64::MIN <= op_step(op, a, b) <= i64::MAX,
    ensures
        r as int == op_step(op, a, b),
{
    match op {
        ReduceOpType::Sum => a + b,
        ReduceOpType::Avg => a + b,
        ReduceOpType::PremulSum => a + b,
        ReduceOpType::Product => a * b,
        ReduceOpType::Min => if a <= b {
            a
        } else {
            b
        },
        ReduceOpType::Max => if a >= b {
            a
        } else {
            b
        },
        ReduceOpType::BAnd => a & b,
        ReduceOpType::BOr => a | b,
        ReduceOpType::BXOr => a ^ b,
    }
}

/// Combines one element position's values across all ranks: the fold of the
/// whole column, with `Avg` dividing by the rank count at the end.
fn reduce_column(op: ReduceOpType, vals: &Vec<i64>) -> (r: i64)
    requires
        1 <= vals@.len() <= i64::MAX,
        fold_fits(op, vals@),
    ensures
        r as int == combined(op, vals@),
{
    let mut acc: i64 = vals[0];
    proof {
        assert(vals@.take(1)[0] == vals@[0]);
        assert(fold_vals(op, vals@.take(1)) == vals@[0] as int);
    }
    let mut i: usize = 1;
    while i < vals.len()
        invariant
            1 <= i <= vals@.len() <= i64::MAX,
            fold_fits(op, vals@),
            acc as int == fold_vals(op, vals@.take(i as int)),
        decreases vals@.len() - i,
    {
        proof {
            lemma_fold_fits_prefix(op, vals@, i + 1);
            assert(vals@.take(i + 1).drop_last() =~= vals@.take(i as int));
            assert(vals@.take(i + 1).last() == vals@[i as int]);
            assert(fold_vals(op, vals@.take(i + 1)) == op_step(op, acc, vals@[i as int]));
        }
        acc = op_step_exec(op, acc, vals[i]);
        i = i + 1;
    }
    proof {
        assert(vals@.take(vals@.len() as int) =~= vals@);
    }
    if let ReduceOpType::Avg = op {
        let n = vals.len() as i64;
        let q = match acc.checked_div(n) {
            Some(q) => q,
            None => 0,  // unreachable: the divisor is at least one
        };
        proof {
            lemma_div_toward_zero_in_range(acc as int, n as int);
        }
        q
    } else {
        acc
    }
}

/// Whether two byte vectors hold the same bytes.
fn bytes_eq(a: &Vec<u8>, b: &Vec<u8>) -> (r: bool)
    ensures
        r == (a@ == b@),
{
    if a.len() != b.len() {
        proof {
            assert(a@ != b@);
        }
        return false;
    }
    let mut i: usize = 0;
    while i < a.len()
        invariant
            a@.len() == b@.len(),
            i <= a@.len(),
            forall|j: int| 0 <= j < i ==> a@[j] == b@[j],
        decreases a@.len() - i,
    {
        if a[i] != b[i] {
            proof {
                assert(a@[i as int] != b@[i as int]);
            }
            return false;
        }
        i = i + 1;
    }
    proof {
        assert(a@ =~= b@);
    }
    true
}

/// Copies the bytes of a vector.
fn copy_bytes(v: &Vec<u8>) -> (r: Vec<u8>)
    ensures
        r@ == v@,
{
    let mut out: Vec<u8> = Vec::new();
    let mut i: usize = 0;
    while i < v.len()
        invariant
            i <= v@.len(),
            out@ == v@.take(i as int),
        decreases v@.len() - i,
    {
        out.push(v[i]);
        proof {
            assert(out@ =~= v@.take(i + 1 as int));
        }
        i = i + 1;
    }
    proof {
        assert(out@ =~= v@);
    }
    out
}

/// The value the bulletin board holds under a key: the first entry whose
/// key matches.
pub open spec fn lookup(entries: Seq<(Vec<u8>, Vec<u8>)>, key: Seq<u8>) -> Option<Seq<u8>>
    decreases entries.len(),
{
    if entries.len() == 0 {
        None
    } else if entries[0].0@ == key {
        Some(entries[0].1@)
    } else {
        lookup(entries.drop_first(), key)
    }
}

/// The rendezvous store: a shared bulletin board of write-once keys, plus
/// the registrations `(rank, size)` of every construction call made against
/// it, which the group-formation handshake validates.
#[derive(Debug)]
pub struct CStore {
    pub entries: Vec<(Vec<u8>, Vec<u8>)>,
    pub regs: Vec<(i64, i64)>,
}

impl CStore {
    /// A fresh store: no keys set, no ranks registered.
    pub fn new() -> (r: CStore)
        ensures
            r.entries@.len() == 0,
            r.regs@.len() == 0,
    {
        CStore { entries: Vec::new(), regs: Vec::new() }
    }

    /// Publishes a value under a key. A key already set keeps its value for
    /// the lifetime of the store: the call then changes nothing and reports
    /// `false`.
    pub fn publish(&mut self, key: Vec<u8>, value: Vec<u8>) -> (r: bool)
        ensures
            final(self).regs@ == old(self).regs@,
            r == (lookup(old(self).entries@, key@) is None),
            !r ==> final(self).entries@ == old(self).entries@,
            r ==> final(self).entries@.len() == old(self).entries@.len() + 1
                && final(self).entries@.last().0@ == key@
                && final(self).entries@.last().1@ == value@
                && forall|j: int|
                    0 <= j < old(self).entries@.len() ==> final(self).entries@[j] == old(self).entries@[j],
    {
        proof {
            assert(self.entries@.skip(0) =~= self.entries@);
        }
        let mut i: usize = 0;
        while i < self.entries.len()
            invariant
                i <= self.entries@.len(),
                forall|j: int| 0 <= j < i ==> (#[trigger] self.entries@[j]).0@ != key@,
                lookup(self.entries@.skip(i as int), key@) == lookup(self.entries@, key@),
        decreases self.entries@.len() - i,
        {
            let hit = bytes_eq(&self.entries[i].0, &key);
            proof {
                assert(self.entries@.skip(i as int)[0] == self.entries@[i as int]);
                assert(self.entries@.skip(i as int).drop_first() =~= self.entries@.skip(i + 1));
            }
            if hit {
                proof {
                    assert(lookup(self.entries@, key@) is Some);
                }
                return false;
            }
            i = i + 1;
        }
        proof {
            assert(self.entries@.skip(self.entries@.len() as int).len() == 0);
            assert(lookup(self.entries@, key@) is None);
        }
        self.entries.push((key, value));
        true
    }

    /// Retrieves the value published under a key, or `None` when the key was
    /// never set.
    pub fn retrieve(&self, key: &Vec<u8>) -> (r: Option<Vec<u8>>)
        ensures
            match r {
                Some(v) => lookup(self.entries@, key@) == Some(v@),
                None => lookup(self.entries@, key@) is None,
            },
    {
        proof {
            assert(self.entries@.skip(0) =~= self.entries@);
        }
        let mut i: usize = 0;
        while i < self.entries.len()
            invariant
                i <= self.entries@.len(),
                lookup(self.entries@.skip(i as int), key@) == lookup(self.entries@, key@),
            decreases self.entries@.len() - i,
        {
            let hit = bytes_eq(&self.entries[i].0, key);
            proof {
                assert(self.entries@.skip(i as int)[0] == self.entries@[i as int]);
                assert(self.entries@.skip(i as int).drop_first() =~= self.entries@.skip(i + 1));
            }
            if hit {
                return Some(copy_bytes(&self.entries[i].1));
            }
            i = i + 1;
        }
        proof {
            assert(self.entries@.skip(self.entries@.len() as int).len() == 0);
        }
        None
    }

    /// Registers a construction request `(rank, size)` with the store: the
    /// publishing half of the rendezvous. The handshake itself is validated
    /// by `CNCCL::new` once every rank has registered.
    pub fn register(&mut self, rank: i64, size: i64)
        ensures
            final(self).entries@ == old(self).entries@,
            final(self).regs@ == old(self).regs@.push((rank, size)),
    {
        self.regs.push((rank, size));
    }
}

/// Whether the registrations in a store form a complete, consistent group
/// for a caller holding `(rank, size)`: every rank registered the same
/// `size`, the registered ranks are exactly `size` many, pairwise distinct
/// and in range, and the caller's own rank is among them.
pub open spec fn group_ok(regs: Seq<(i64, i64)>, rank: i64, size: i64) -> bool {
    &&& 1 <= size
    &&& 0 <= rank < size
    &&& regs.len() == size
    &&& forall|i: int| 0 <= i < regs.len() ==> (#[trigger] regs[i]).1 == size
    &&& forall|i: int| 0 <= i < regs.len() ==> 0 <= (#[trigger] regs[i]).0 < size
    &&& forall|i: int, j: int| 0 <= i < j < regs.len() ==> regs[i].0 != regs[j].0
    &&& exists|i: int| 0 <= i < regs.len() && (#[trigger] regs[i]).0 == rank
}

/// Decides `group_ok` on a store's registrations.
fn check_group(regs: &Vec<(i64, i64)>, rank: i64, size: i64) -> (r: bool)
    ensures
        r == group_ok(regs@, rank, size),
{
    if size < 1 || rank < 0 || rank >= size {
        return false;
    }
    if regs.len() as u64 != size as u64 {
        return false;
    }
    let n: usize = regs.len();
    let mut seen: Vec<bool> = Vec::new();
    let mut i: usize = 0;
    while i < n
        invariant
            i <= n,
            seen@.len() == i,
            forall|j: int| 0 <= j < i ==> !(#[trigger] seen@[j]),
        decreases n - i,
    {
        seen.push(false);
        i = i + 1;
    }
    let mut found_own = false;
    let mut i: usize = 0;
    while i < n
        invariant
            1 <= size,
            0 <= rank < size,
            regs@.len() == n == size,
            seen@.len() == n,
            i <= n,
            forall|j: int| 0 <= j < i ==> (#[trigger] regs@[j]).1 == size,
            forall|j: int| 0 <= j < i ==> 0 <= (#[trigger] regs@[j]).0 < size,
            forall|a: int, b: int| 0 <= a < b < i ==> regs@[a].0 != regs@[b].0,
            forall|k: int|
                0 <= k < n ==> (#[trigger] seen@[k] == exists|j: int|
                    0 <= j < i && (#[trigger] regs@[j]).0 == k),
            found_own == exists|j: int| 0 <= j < i && (#[trigger] regs@[j]).0 == rank,
        decreases n - i,
    {
        let (rk, sz) = regs[i];
        if sz != size {
            return false;
        }
        if rk < 0 || rk >= size {
            return false;
        }
        if seen[rk as usize] {
            proof {
                let j = choose|j: int| 0 <= j < i && (#[trigger] regs@[j]).0 == rk as int;
                assert(regs@[j].0 == regs@[i as int].0);
            }
            return false;
        }
        seen.set(rk as usize, true);
        if rk == rank {
            found_own = true;
        }
        proof {
            assert forall|k: int|
                0 <= k < n implies (#[trigger] seen@[k] == exists|j: int|
                    0 <= j < i + 1 && (#[trigger] regs@[j]).0 == k) by {
                if k == rk as int {
                    assert(regs@[i as int].0 == k);
                } else {
                    if seen@[k] {
                        let j = choose|j: int| 0 <= j < i && (#[trigger] regs@[j]).0 == k;
                        assert(0 <= j < i + 1 && regs@[j].0 == k);
                    } else {
                        if exists|j: int| 0 <= j < i + 1 && (#[trigger] regs@[j]).0 == k {
                            let j = choose|j: int|
                                0 <= j < i + 1 && (#[trigger] regs@[j]).0 == k;
                            assert(j == i);
                            assert(false);
                        }
                    }
                }
            }
        }
        i = i + 1;
    }
    if !found_own {
        return false;
    }
    proof {
        assert(group_ok(regs@, rank, size));
    }
    true
}

/// For a positive divisor, truncating division never leaves the dividend's
/// range, and matches the machine's quotient formula.
proof fn lemma_div_toward_zero_in_range(x: int, d: int)
    requires
        i64::MIN <= x <= i64::MAX,
        1 <= d,
    ensures
        i64::MIN <= div_toward_zero(x, d) <= i64::MAX,
        x >= 0 ==> 0 <= div_toward_zero(x, d) <= x,
        x < 0 ==> x <= div_toward_zero(x, d) <= 0,
{
    if x >= 0 {
        vstd::arithmetic::div_mod::lemma_div_is_ordered_by_denominator(x, 1, d);
        vstd::arithmetic::div_mod::lemma_div_basics(x);
        vstd::arithmetic::div_mod::lemma_div_pos_is_pos(x, d);
    } else {
        vstd::arithmetic::div_mod::lemma_div_is_ordered_by_denominator(-x, 1, d);
        vstd::arithmetic::div_mod::lemma_div_basics(-x);
        vstd::arithmetic::div_mod::lemma_div_pos_is_pos(-x, d);
    }
}

/// Every buffer in the list lives on the given device.
pub open spec fn devices_ok(bufs: Seq<Buffer>, device: Device) -> bool {
    forall|k: int| 0 <= k < bufs.len() ==> (#[trigger] bufs[k]).device == device
}

/// All ranks handed the same number of buffers, with matching element
/// counts position by position.
pub open spec fn contributions_congruent(c: Seq<Vec<Buffer>>, size: int) -> bool {
    &&& c.len() == size
    &&& forall|r: int| 0 <= r < c.len() ==> (#[trigger] c[r])@.len() == c[0]@.len()
    &&& forall|r: int, k: int|
        0 <= r < c.len() && 0 <= k < c[0]@.len() ==> (#[trigger] c[r]@[k])@.len()
            == c[0]@[k]@.len()
}

/// The misuse error a reducing collective reports before issuing anything,
/// or `None` when the arguments are admissible: the contribution list must
/// name every rank, the calling rank's own buffers must sit on the group's
/// device, and all ranks' buffers must agree in count and element count.
pub open spec fn reduce_error(c: Seq<Vec<Buffer>>, size: int, device: Device, rank: int) -> Option<
    TchError,
> {
    if c.len() != size {
        Some(TchError::BufferCountMismatch)
    } else if !devices_ok(c[rank]@, device) {
        Some(TchError::DeviceMismatch)
    } else if !contributions_congruent(c, size) {
        Some(TchError::BufferCountMismatch)
    } else {
        None
    }
}

/// The values all ranks contribute at buffer `k`, element `i`, in rank
/// order.
pub open spec fn column(c: Seq<Vec<Buffer>>, k: int, i: int) -> Seq<i64> {
    Seq::new(c.len() as nat, |r: int| c[r]@[k]@[i])
}

/// Every element position's fold across ranks stays within the element
/// type.
pub open spec fn reduce_fits(op: ReduceOpType, c: Seq<Vec<Buffer>>) -> bool {
    forall|k: int, i: int|
        0 <= k < c[0]@.len() && 0 <= i < c[0]@[k]@.len() ==> fold_fits(
            op,
            #[trigger] column(c, k, i),
        )
}

/// What a reducing collective hands back to rank `rank`: one buffer per
/// contributed buffer, keeping the rank's own kind and placement, each
/// element the combination of all ranks' values at that position.
pub open spec fn reduced_correct(
    out: Seq<Buffer>,
    op: ReduceOpType,
    c: Seq<Vec<Buffer>>,
    rank: int,
) -> bool {
    &&& out.len() == c[rank]@.len()
    &&& forall|k: int|
        0 <= k < out.len() ==> (#[trigger] out[k]).kind == c[rank]@[k].kind && out[k].device
            == c[rank]@[k].device && out[k]@.len() == c[rank]@[k]@.len()
    &&& forall|k: int, i: int|
        0 <= k < out.len() && 0 <= i < out[k]@.len() ==> (#[trigger] out[k]@[i]) as int
            == combined(op, column(c, k, i))
}

/// Decides `reduce_error` on a contribution list.
fn validate_reduce(c: &Vec<Vec<Buffer>>, size: i64, device: Device, rank: i64) -> (r: Option<
    TchError,
>)
    requires
        1 <= size,
        0 <= rank < size,
    ensures
        r == reduce_error(c@, size as int, device, rank as int),
{
    if c.len() as u64 != size as u64 {
        return Some(TchError::BufferCountMismatch);
    }
    let own = &c[rank as usize];
    let mut k: usize = 0;
    while k < own.len()
        invariant
            c@.len() == size,
            0 <= rank < size,
            own == c@[rank as int],
            k <= own@.len(),
            forall|j: int| 0 <= j < k ==> (#[trigger] c@[rank as int]@[j]).device == device,
        decreases own@.len() - k,
    {
        if !device_eq(own[k].device, device) {
            proof {
                assert(c@[rank as int]@[k as int].device != device);
                assert(!devices_ok(c@[rank as int]@, device));
            }
            return Some(TchError::DeviceMismatch);
        }
        k = k + 1;
    }
    proof {
        assert(devices_ok(c@[rank as int]@, device));
    }
    let count = c[0].len();
    let mut r: usize = 0;
    while r < c.len()
        invariant
            c@.len() == size,
            0 <= rank < size,
            devices_ok(c@[rank as int]@, device),
            count == c@[0]@.len(),
            r <= c@.len(),
            forall|j: int| 0 <= j < r ==> (#[trigger] c@[j])@.len() == count,
        decreases c@.len() - r,
    {
        if c[r].len() != count {
            proof {
                assert((c@[r as int])@.len() != c@[0]@.len());
                assert(!contributions_congruent(c@, size as int));
            }
            return Some(TchError::BufferCountMismatch);
        }
        r = r + 1;
    }
    let mut r: usize = 0;
    while r < c.len()
        invariant
            c@.len() == size,
            0 <= rank < size,
            devices_ok(c@[rank as int]@, device),
            count == c@[0]@.len(),
            forall|j: int| 0 <= j < c@.len() ==> (#[trigger] c@[j])@.len() == count,
            r <= c@.len(),
            forall|j: int, k2: int|
                0 <= j < r && 0 <= k2 < count ==> (#[trigger] c@[j]@[k2])@.len()
                    == c@[0]@[k2]@.len(),
        decreases c@.len() - r,
    {
        let mut k2: usize = 0;
        while k2 < count
            invariant
                c@.len() == size,
                0 <= rank < size,
                devices_ok(c@[rank as int]@, device),
                count == c@[0]@.len(),
                forall|j: int| 0 <= j < c@.len() ==> (#[trigger] c@[j])@.len() == count,
                r < c@.len(),
                k2 <= count,
                forall|j: int, k3: int|
                    0 <= j < r && 0 <= k3 < count ==> (#[trigger] c@[j]@[k3])@.len()
                        == c@[0]@[k3]@.len(),
                forall|k3: int|
                    0 <= k3 < k2 ==> (#[trigger] c@[r as int]@[k3])@.len() == c@[0]@[k3]@.len(),
            decreases count - k2,
        {
            if c[r][k2].data.len() != c[0][k2].data.len() {
                proof {
                    assert((c@[r as int]@[k2 as int])@.len() != c@[0]@[k2 as int]@.len());
                    assert(!contributions_congruent(c@, size as int));
                }
                return Some(TchError::BufferCountMismatch);
            }
            k2 = k2 + 1;
        }
        r = r + 1;
    }
    proof {
        assert(contributions_congruent(c@, size as int));
    }
    None
}

/// Whether two devices are the same placement.
fn device_eq(a: Device, b: Device) -> (r: bool)
    ensures
        r == (a == b),
{
    match (a, b) {
        (Device::Cpu, Device::Cpu) => true,
        (Device::Cuda(x), Device::Cuda(y)) => x == y,
        _ => false,
    }
}

/// Computes what a reducing collective hands back to rank `rank`.
fn compute_reduce(c: &Vec<Vec<Buffer>>, op: ReduceOpType, rank: i64, size: i64, device: Device) -> (
    out: Vec<Buffer>)
    requires
        1 <= size,
        0 <= rank < size,
        reduce_error(c@, size as int, device, rank as int) is None,
        reduce_fits(op, c@),
    ensures
        reduced_correct(out@, op, c@, rank as int),
{
    let n: usize = c.len();
    let own_len: usize = c[rank as usize].len();
    let mut out: Vec<Buffer> = Vec::new();
    let mut k: usize = 0;
    while k < own_len
        invariant
            1 <= size,
            0 <= rank < size,
            reduce_error(c@, size as int, device, rank as int) is None,
            reduce_fits(op, c@),
            n == c@.len() == size,
            own_len == c@[rank as int]@.len(),
            k <= own_len,
            out@.len() == k,
            forall|k2: int|
                0 <= k2 < k ==> (#[trigger] out@[k2]).kind == c@[rank as int]@[k2].kind
                    && out@[k2].device == c@[rank as int]@[k2].device && out@[k2]@.len()
                    == c@[rank as int]@[k2]@.len(),
            forall|k2: int, i: int|
                0 <= k2 < k && 0 <= i < out@[k2]@.len() ==> (#[trigger] out@[k2]@[i]) as int
                    == combined(op, column(c@, k2, i)),
        decreases own_len - k,
    {
        let elems: usize = c[rank as usize][k].data.len();
        proof {
            assert(c@[rank as int]@.len() == c@[0]@.len());
            assert(c@[rank as int]@[k as int]@.len() == c@[0]@[k as int]@.len());
        }
        let mut data: Vec<i64> = Vec::new();
        let mut i: usize = 0;
        while i < elems
            invariant
                1 <= size,
                0 <= rank < size,
                reduce_error(c@, size as int, device, rank as int) is None,
                reduce_fits(op, c@),
                n == c@.len() == size,
                own_len == c@[rank as int]@.len(),
                k < own_len,
                elems == c@[rank as int]@[k as int]@.len(),
                elems == c@[0]@[k as int]@.len(),
                i <= elems,
                data@.len() == i,
                forall|i2: int|
                    0 <= i2 < i ==> (#[trigger] data@[i2]) as int == combined(
                        op,
                        column(c@, k as int, i2),
                    ),
            decreases elems - i,
        {
            let mut vals: Vec<i64> = Vec::new();
            let mut r: usize = 0;
            while r < n
                invariant
                    reduce_error(c@, size as int, device, rank as int) is None,
                    n == c@.len() == size,
                    k < c@[0]@.len(),
                    i < c@[0]@[k as int]@.len(),
                    r <= n,
                    vals@.len() == r,
                    forall|r2: int| 0 <= r2 < r ==> vals@[r2] == c@[r2]@[k as int]@[i as int],
                decreases n - r,
            {
                proof {
                    assert(c@[r as int]@.len() == c@[0]@.len());
                    assert(c@[r as int]@[k as int]@.len() == c@[0]@[k as int]@.len());
                }
                vals.push(c[r][k].data[i]);
                r = r + 1;
            }
            proof {
                assert(vals@ =~= column(c@, k as int, i as int));
                assert(fold_fits(op, column(c@, k as int, i as int)));
            }
            let v = reduce_column(op, &vals);
            data.push(v);
            i = i + 1;
        }
        let kind = c[rank as usize][k].kind;
        let dev = c[rank as usize][k].device;
        out.push(Buffer { kind, device: dev, data });
        k = k + 1;
    }
    out
}

/// A reducing operation queued inside an open batch scope, with the
/// contributions it was issued with.
#[derive(Debug)]
pub struct PendingReduce {
    pub contributions: Vec<Vec<Buffer>>,
    pub reduction: ReduceOpType,
}

/// Copies a list of buffers, keeping kind, placement, and values.
fn copy_buffers(bufs: &Vec<Buffer>) -> (r: Vec<Buffer>)
    ensures
        r@.len() == bufs@.len(),
        forall|k: int|
            0 <= k < bufs@.len() ==> (#[trigger] r@[k]).kind == bufs@[k].kind && r@[k].device
                == bufs@[k].device && r@[k]@ == bufs@[k]@,
{
    let mut out: Vec<Buffer> = Vec::new();
    let mut k: usize = 0;
    while k < bufs.len()
        invariant
            k <= bufs@.len(),
            out@.len() == k,
            forall|j: int|
                0 <= j < k ==> (#[trigger] out@[j]).kind == bufs@[j].kind && out@[j].device
                    == bufs@[j].device && out@[j]@ == bufs@[j]@,
        decreases bufs@.len() - k,
    {
        out.push(bufs[k].shallow_clone());
        k = k + 1;
    }
    out
}

/// Two contribution lists carry the same buffers: same shape, same kinds,
/// same placements, same values.
pub open spec fn contributions_like(a: Seq<Vec<Buffer>>, b: Seq<Vec<Buffer>>) -> bool {
    &&& a.len() == b.len()
    &&& forall|r: int| 0 <= r < a.len() ==> (#[trigger] a[r])@.len() == b[r]@.len()
    &&& forall|r: int, k: int|
        0 <= r < a.len() && 0 <= k < a[r]@.len() ==> (#[trigger] a[r]@[k]).kind == b[r]@[k].kind
            && a[r]@[k].device == b[r]@[k].device && a[r]@[k]@ == b[r]@[k]@
}

/// Copies a contribution list.
fn copy_contributions(c: &Vec<Vec<Buffer>>) -> (r: Vec<Vec<Buffer>>)
    ensures
        contributions_like(r@, c@),
{
    let mut out: Vec<Vec<Buffer>> = Vec::new();
    let mut r: usize = 0;
    while r < c.len()
        invariant
            r <= c@.len(),
            out@.len() == r,
            forall|j: int| 0 <= j < r ==> (#[trigger] out@[j])@.len() == c@[j]@.len(),
            forall|j: int, k: int|
                0 <= j < r && 0 <= k < out@[j]@.len() ==> (#[trigger] out@[j]@[k]).kind
                    == c@[j]@[k].kind && out@[j]@[k].device == c@[j]@[k].device && out@[j]@[k]@
                    == c@[j]@[k]@,
        decreases c@.len() - r,
    {
        out.push(copy_buffers(&c[r]));
        r = r + 1;
    }
    out
}

/// A contribution list copied value for value — as a queued batch entry is —
/// validates, fits, and combines exactly as the original: queuing a reducing
/// collective inside a batch scope never changes the values it produces.
pub proof fn lemma_contributions_like_reduce(
    a: Seq<Vec<Buffer>>,
    b: Seq<Vec<Buffer>>,
    op: ReduceOpType,
    size: int,
    device: Device,
    rank: int,
)
    requires
        contributions_like(a, b),
        0 <= rank < a.len(),
        reduce_error(b, size, device, rank) is None,
        reduce_fits(op, b),
    ensures
        reduce_error(a, size, device, rank) is None,
        reduce_fits(op, a),
        forall|k: int, i: int|
            0 <= k < b[0]@.len() && 0 <= i < b[0]@[k]@.len() ==> column(a, k, i) == #[trigger]
            column(b, k, i),
        forall|k: int, i: int|
            0 <= k < b[0]@.len() && 0 <= i < b[0]@[k]@.len() ==> combined(op, column(a, k, i))
                == combined(op, #[trigger] column(b, k, i)),
{
    assert(contributions_congruent(b, size));
    assert(a.len() == size);
    assert forall|k: int| 0 <= k < a[rank]@.len() implies (#[trigger] a[rank]@[k]).device
        == device by {
        assert(b[rank]@[k].device == device);
    }
    assert forall|r: int| 0 <= r < a.len() implies (#[trigger] a[r])@.len() == a[0]@.len() by {
        assert(a[r]@.len() == b[r]@.len());
        assert(a[0]@.len() == b[0]@.len());
        assert(b[r]@.len() == b[0]@.len());
    }
    assert forall|r: int, k: int|
        0 <= r < a.len() && 0 <= k < a[0]@.len() implies (#[trigger] a[r]@[k])@.len()
        == a[0]@[k]@.len() by {
        assert(a[0]@.len() == b[0]@.len());
        assert(b[r]@.len() == b[0]@.len());
        assert(a[r]@.len() == b[r]@.len());
        assert(a[r]@[k]@ == b[r]@[k]@);
        assert(a[0]@[k]@ == b[0]@[k]@);
        assert(b[r]@[k]@.len() == b[0]@[k]@.len());
    }
    assert(contributions_congruent(a, size));
    assert(reduce_error(a, size, device, rank) is None);
    assert forall|k: int, i: int|
        0 <= k < b[0]@.len() && 0 <= i < b[0]@[k]@.len() implies column(a, k, i) == #[trigger]
    column(b, k, i) by {
        assert forall|r: int| 0 <= r < a.len() implies a[r]@[k]@[i] == b[r]@[k]@[i] by {
            assert(b[r]@.len() == b[0]@.len());
            assert(a[r]@.len() == b[r]@.len());
            assert(a[r]@[k]@ == b[r]@[k]@);
            assert(b[r]@[k]@.len() == b[0]@[k]@.len());
        }
        assert(column(a, k, i) =~= column(b, k, i));
    }
    assert forall|k: int, i: int|
        0 <= k < a[0]@.len() && 0 <= i < a[0]@[k]@.len() implies fold_fits(
        op,
        #[trigger] column(a, k, i),
    ) by {
        assert(a[0]@.len() == b[0]@.len());
        assert(a[0]@[k]@ == b[0]@[k]@);
        assert(fold_fits(op, column(b, k, i)));
        assert(column(a, k, i) == column(b, k, i));
    }
}

/// The communicator of one rank: its identity in the group, its bound
/// device, and the state of its operation-batch scope. Built against a
/// store once all ranks have registered.
#[derive(Debug)]
pub struct CNCCL {
    pub rank: i64,
    pub size: i64,
    pub device: Device,
    pub batch_open: bool,
    pub queued: Vec<PendingReduce>,
}

impl CNCCL {
    /// A communicator is well formed when its identity is in range, its
    /// batch queue is empty outside an open batch, and every queued
    /// operation was admitted by validation.
    pub open spec fn wf(self) -> bool {
        &&& 1 <= self.size <= usize::MAX
        &&& 0 <= self.rank < self.size
        &&& !self.batch_open ==> self.queued@.len() == 0
        &&& forall|q: int|
            0 <= q < self.queued@.len() ==> reduce_error(
                (#[trigger] self.queued@[q]).contributions@,
                self.size as int,
                self.device,
                self.rank as int,
            ) is None && reduce_fits(self.queued@[q].reduction, self.queued@[q].contributions@)
    }

    /// The group identity and batch state carry over unchanged.
    pub open spec fn same_identity(self, other: CNCCL) -> bool {
        &&& self.rank == other.rank
        &&& self.size == other.size
        &&& self.device == other.device
    }

    /// Forms this rank's communicator against a store: succeeds exactly
    /// when the store's registrations make up a complete, consistent group
    /// that includes this caller's `(rank, size)` claim, and fails with
    /// `GroupFormationFailed` on every rank otherwise — no rank proceeds
    /// with a partial or mismatched group.
    pub fn new(store: &CStore, rank: i64, size: i64, device: Device) -> (r: Result<CNCCL, TchError>)
        ensures
            group_ok(store.regs@, rank, size) ==> (r matches Ok(g) && g.wf() && g.rank == rank
                && g.size == size && g.device == device && !g.batch_open && g.queued@.len() == 0),
            !group_ok(store.regs@, rank, size) ==> r == Err::<CNCCL, TchError>(
                TchError::GroupFormationFailed,
            ),
    {
        let n: usize = store.regs.len();
        if check_group(&store.regs, rank, size) {
            proof {
                assert(size == n);
            }
            Ok(CNCCL { rank, size, device, batch_open: false, queued: Vec::new() })
        } else {
            Err(TchError::GroupFormationFailed)
        }
    }

    /// This rank's index within the group.
    pub fn rank(&self) -> (r: i64)
        ensures
            r == self.rank,
    {
        self.rank
    }

    /// How many ranks the group has.
    pub fn size(&self) -> (r: i64)
        ensures
            r == self.size,
    {
        self.size
    }

    /// Opens the operation-batch scope. Batches do not nest: opening while
    /// one is open is a usage error and changes nothing.
    pub fn group_start(&mut self) -> (r: Result<(), TchError>)
        requires
            old(self).wf(),
        ensures
            final(self).wf(),
            old(self).same_identity(*final(self)),
            old(self).batch_open ==> r == Err::<(), TchError>(TchError::BatchStateError) && *final(self) == *old(self),
            !old(self).batch_open ==> r == Ok::<(), TchError>(()) && final(self).batch_open
                && final(self).queued@.len() == 0,
    {
        if self.batch_open {
            Err(TchError::BatchStateError)
        } else {
            self.batch_open = true;
            Ok(())
        }
    }

    /// Closes the operation-batch scope, issuing every queued reducing
    /// operation in the order it was queued and handing back their results.
    /// Closing without a prior `group_start` is a usage error: it reports
    /// `BatchStateError` and leaves the group — and so every previously
    /// completed collective's result — untouched.
    pub fn group_end(&mut self) -> (r: Result<Vec<Vec<Buffer>>, TchError>)
        requires
            old(self).wf(),
        ensures
            final(self).wf(),
            old(self).same_identity(*final(self)),
            !old(self).batch_open ==> r == Err::<Vec<Vec<Buffer>>, TchError>(
                TchError::BatchStateError,
            ) && *final(self) == *old(self),
            old(self).batch_open ==> (r matches Ok(outs) && !final(self).batch_open && final(self).queued@.len() == 0 && outs@.len() == old(self).queued@.len() && forall|q: int|
                0 <= q < outs@.len() ==> reduced_correct(
                    (#[trigger] outs@[q])@,
                    old(self).queued@[q].reduction,
                    old(self).queued@[q].contributions@,
                    old(self).rank as int,
                )),
    {
        if !self.batch_open {
            return Err(TchError::BatchStateError);
        }
        let mut outs: Vec<Vec<Buffer>> = Vec::new();
        let mut q: usize = 0;
        while q < self.queued.len()
            invariant
                self.wf(),
                self.batch_open,
                q <= self.queued@.len(),
                outs@.len() == q,
                forall|j: int|
                    0 <= j < q ==> reduced_correct(
                        (#[trigger] outs@[j])@,
                        self.queued@[j].reduction,
                        self.queued@[j].contributions@,
                        self.rank as int,
                    ),
            decreases self.queued@.len() - q,
        {
            let out = compute_reduce(
                &self.queued[q].contributions,
                self.queued[q].reduction,
                self.rank,
                self.size,
                self.device,
            );
            outs.push(out);
            q = q + 1;
        }
        self.queued = Vec::new();
        self.batch_open = false;
        Ok(outs)
    }

    /// The reducing collective. `contributions[r]` is the buffer list rank
    /// `r` passed; the caller's own list is `contributions[rank]`. Misuse is
    /// reported before anything is issued. With the batch scope closed the
    /// call completes at once and every rank obtains the identical combined
    /// result, element by element; with the scope open the validated call is
    /// queued and completes at `group_end`.
    pub fn all_reduce(&mut self, contributions: &Vec<Vec<Buffer>>, reduction: ReduceOpType) -> (r:
        Result<Option<Vec<Buffer>>, TchError>)
        requires
            old(self).wf(),
            reduce_error(
                contributions@,
                old(self).size as int,
                old(self).device,
                old(self).rank as int,
            ) is None ==> reduce_fits(reduction, contributions@),
        ensures
            final(self).wf(),
            old(self).same_identity(*final(self)),
            ({
                let err = reduce_error(
                    contributions@,
                    old(self).size as int,
                    old(self).device,
                    old(self).rank as int,
                );
                match err {
                    Some(e) => r == Err::<Option<Vec<Buffer>>, TchError>(e) && *final(self) == *old(self),
                    None => if old(self).batch_open {
                        &&& r matches Ok(res) && res is None
                        &&& final(self).batch_open
                        &&& final(self).queued@.len() == old(self).queued@.len() + 1
                        &&& forall|j: int|
                            0 <= j < old(self).queued@.len() ==> final(self).queued@[j] == old(self).queued@[j]
                        &&& final(self).queued@.last().reduction == reduction
                        &&& contributions_like(
                            final(self).queued@.last().contributions@,
                            contributions@,
                        )
                    } else {
                        &&& r matches Ok(res) && res matches Some(out) && reduced_correct(
                            out@,
                            reduction,
                            contributions@,
                            old(self).rank as int,
                        )
                        &&& *final(self) == *old(self)
                    },
                }
            }),
    {
        if let Some(e) = validate_reduce(contributions, self.size, self.device, self.rank) {
            return Err(e);
        }
        if self.batch_open {
            let stored = copy_contributions(contributions);
            proof {
                lemma_contributions_like_reduce(
                    stored@,
                    contributions@,
                    reduction,
                    self.size as int,
                    self.device,
                    self.rank as int,
                );
            }
            self.queued.push(PendingReduce { contributions: stored, reduction });
            Ok(None)
        } else {
            let out = compute_reduce(contributions, reduction, self.rank, self.size, self.device);
            Ok(Some(out))
        }
    }

    /// Synchronizes unrelated work: records this rank's arrival at the
    /// barrier. The barrier releases — `BarrierSync::complete` turns true —
    /// only once every rank of the group has arrived.
    pub fn barrier(&self, device: Device, sync: &mut BarrierSync) -> (r: Result<(), TchError>)
        requires
            self.wf(),
            old(sync).wf(),
            old(sync).size == self.size,
        ensures
            final(sync).wf(),
            final(sync).size == old(sync).size,
            self.batch_open ==> r == Err::<(), TchError>(TchError::BatchStateError) && *final(sync)
                == *old(sync),
            !self.batch_open && device != self.device ==> r == Err::<(), TchError>(
                TchError::DeviceMismatch,
            ) && *final(sync) == *old(sync),
            !self.batch_open && device == self.device ==> r == Ok::<(), TchError>(()) && final(sync).arrived@ == old(sync).arrived@.update(self.rank as int, true),
    {
        if self.batch_open {
            return Err(TchError::BatchStateError);
        }
        if !device_eq(device, self.device) {
            return Err(TchError::DeviceMismatch);
        }
        sync.arrived.set(self.rank as usize, true);
        Ok(())
    }

    /// Replicates a buffer unchanged to every rank: the value handed back is
    /// the input, element for element, on the same placement.
    pub fn copy_to_model_parallel(&self, tensor: &Buffer) -> (r: Result<Buffer, TchError>)
        requires
            self.wf(),
        ensures
            self.batch_open ==> r == Err::<Buffer, TchError>(TchError::BatchStateError),
            !self.batch_open && tensor.device != self.device ==> r == Err::<Buffer, TchError>(
                TchError::DeviceMismatch,
            ),
            !self.batch_open && tensor.device == self.device ==> (r matches Ok(out) && out.kind
                == tensor.kind && out.device == tensor.device && out@ == tensor@),
    {
        if self.batch_open {
            return Err(TchError::BatchStateError);
        }
        if !device_eq(tensor.device, self.device) {
            return Err(TchError::DeviceMismatch);
        }
        Ok(tensor.shallow_clone())
    }

    /// Sum-reduces one buffer per rank: every rank ends up with the
    /// element-wise sum of all ranks' values, keeping its own buffer's kind
    /// and placement. `contributions[r]` is the buffer rank `r` passed.
    pub fn reduce_from_model_parallel(&self, contributions: &Vec<Buffer>) -> (r: Result<
        Buffer,
        TchError,
    >)
        requires
            self.wf(),
            single_error(
                contributions@,
                self.size as int,
                self.device,
                self.rank as int,
                self.batch_open,
            ) is None ==> single_fits(ReduceOpType::Sum, contributions@),
        ensures
            ({
                let err = single_error(
                    contributions@,
                    self.size as int,
                    self.device,
                    self.rank as int,
                    self.batch_open,
                );
                match err {
                    Some(e) => r == Err::<Buffer, TchError>(e),
                    None => r matches Ok(out) && out.kind == contributions@[self.rank as int].kind
                        && out.device == contributions@[self.rank as int].device && out@.len()
                        == contributions@[self.rank as int]@.len() && forall|i: int|
                        0 <= i < out@.len() ==> (#[trigger] out@[i]) as int == combined(
                            ReduceOpType::Sum,
                            column_single(contributions@, i),
                        ),
                }
            }),
    {
        if let Some(e) = validate_single(
            contributions,
            self.size,
            self.device,
            self.rank,
            self.batch_open,
        ) {
            return Err(e);
        }
        Ok(compute_reduce_single(contributions, ReduceOpType::Sum, self.rank, self.size))
    }

    /// Partitions a buffer's leading dimension into `size` equal shards and
    /// hands this rank shard number `rank`. The length must divide evenly by
    /// the group size; a remainder is a caller error, never truncated.
    pub fn scatter_to_model_parallel(&self, tensor: &Buffer) -> (r: Result<Buffer, TchError>)
        requires
            self.wf(),
        ensures
            self.batch_open ==> r == Err::<Buffer, TchError>(TchError::BatchStateError),
            !self.batch_open && tensor.device != self.device ==> r == Err::<Buffer, TchError>(
                TchError::DeviceMismatch,
            ),
            !self.batch_open && tensor.device == self.device && (tensor@.len() as int) % (
            self.size as int) != 0 ==> r == Err::<Buffer, TchError>(TchError::BufferCountMismatch),
            !self.batch_open && tensor.device == self.device && (tensor@.len() as int) % (
            self.size as int) == 0 ==> (r matches Ok(out) && out.kind == tensor.kind && out.device
                == tensor.device && out@ == shard_of(tensor@, self.size as int, self.rank as int)),
    {
        if self.batch_open {
            return Err(TchError::BatchStateError);
        }
        if !device_eq(tensor.device, self.device) {
            return Err(TchError::DeviceMismatch);
        }
        let size_us: usize = self.size as usize;
        let len: usize = tensor.data.len();
        if len % size_us != 0 {
            return Err(TchError::BufferCountMismatch);
        }
        let shard: usize = len / size_us;
        proof {
            vstd::arithmetic::div_mod::lemma_fundamental_div_mod(len as int, size_us as int);
            assert((self.rank as int + 1) * (shard as int) <= (self.size as int) * (
            shard as int)) by (nonlinear_arith)
                requires
                    self.rank + 1 <= self.size,
                    shard >= 0,
            ;
            assert(0 <= (self.rank as int) * (shard as int)) by (nonlinear_arith)
                requires
                    self.rank >= 0,
                    shard >= 0,
            ;
            assert((self.rank as int) * (shard as int) + shard as int == (self.rank as int + 1) * (
            shard as int)) by (nonlinear_arith);
        }
        let start: usize = (self.rank as usize) * shard;
        let data = copy_range(&tensor.data, start, shard);
        Ok(Buffer { kind: tensor.kind, device: tensor.device, data })
    }

    /// Concatenates each rank's shard back into one full buffer, in rank
    /// order, identical on every rank. `shards[r]` is the shard rank `r`
    /// contributed; the result keeps this rank's shard's kind and placement.
    pub fn gather_from_model_parallel(&self, shards: &Vec<Buffer>) -> (r: Result<Buffer, TchError>)
        requires
            self.wf(),
        ensures
            ({
                let err = single_error(
                    shards@,
                    self.size as int,
                    self.device,
                    self.rank as int,
                    self.batch_open,
                );
                match err {
                    Some(e) => r == Err::<Buffer, TchError>(e),
                    None => r matches Ok(out) && out.kind == shards@[self.rank as int].kind
                        && out.device == shards@[self.rank as int].device && out@ == concat_data(
                        shards@,
                        self.size as int,
                    ),
                }
            }),
    {
        if let Some(e) = validate_single(shards, self.size, self.device, self.rank, self.batch_open)
        {
            return Err(e);
        }
        let n: usize = shards.len();
        let mut data: Vec<i64> = Vec::new();
        let mut r: usize = 0;
        while r < n
            invariant
                n == shards@.len(),
                r <= n,
                data@ == concat_data(shards@, r as int),
            decreases n - r,
        {
            let mut i: usize = 0;
            let m: usize = shards[r].data.len();
            while i < m
                invariant
                    n == shards@.len(),
                    r < n,
                    m == shards@[r as int]@.len(),
                    i <= m,
                    data@ == concat_data(shards@, r as int) + shards@[r as int]@.take(i as int),
                decreases m - i,
            {
                data.push(shards[r].data[i]);
                proof {
                    assert(shards@[r as int]@.take(i + 1 as int) =~= shards@[r as int]@.take(
                        i as int,
                    ).push(shards@[r as int]@[i as int]));
                }
                i = i + 1;
            }
            proof {
                assert(shards@[r as int]@.take(m as int) =~= shards@[r as int]@);
                assert(concat_data(shards@, r + 1 as int) == concat_data(shards@, r as int)
                    + shards@[r as int]@);
            }
            r = r + 1;
        }
        let own = self.rank as usize;
        Ok(Buffer { kind: shards[own].kind, device: shards[own].device, data })
    }

    /// Hands a list of buffers to the transport for a peer rank. The peer's
    /// matching `recv` obtains exactly these values; issuing order between
    /// the two ranks is the caller's contract.
    pub fn send(&self, tensors: &Vec<Buffer>, dst_rank: i64) -> (r: Result<(), TchError>)
        requires
            self.wf(),
        ensures
            self.batch_open ==> r == Err::<(), TchError>(TchError::BatchStateError),
            !self.batch_open && !(0 <= dst_rank < self.size) ==> r == Err::<(), TchError>(
                TchError::PeerUnreachable,
            ),
            !self.batch_open && 0 <= dst_rank < self.size && !devices_ok(tensors@, self.device)
                ==> r == Err::<(), TchError>(TchError::DeviceMismatch),
            !self.batch_open && 0 <= dst_rank < self.size && devices_ok(tensors@, self.device)
                ==> r == Ok::<(), TchError>(()),
    {
        if self.batch_open {
            return Err(TchError::BatchStateError);
        }
        if dst_rank < 0 || dst_rank >= self.size {
            return Err(TchError::PeerUnreachable);
        }
        if !check_devices(tensors, self.device) {
            return Err(TchError::DeviceMismatch);
        }
        Ok(())
    }

    /// Receives a list of buffers from a peer rank: each receiving buffer
    /// keeps its kind and placement and takes over the matching message
    /// buffer's values. `message` is what the peer's `send` passed.
    pub fn recv(&self, tensors: &mut Vec<Buffer>, src_rank: i64, message: &Vec<Buffer>) -> (r:
        Result<(), TchError>)
        requires
            self.wf(),
        ensures
            self.batch_open ==> r == Err::<(), TchError>(TchError::BatchStateError) && *final(tensors) == *old(tensors),
            !self.batch_open && !(0 <= src_rank < self.size) ==> r == Err::<(), TchError>(
                TchError::PeerUnreachable,
            ) && *final(tensors) == *old(tensors),
            !self.batch_open && 0 <= src_rank < self.size && !devices_ok(
                old(tensors)@,
                self.device,
            ) ==> r == Err::<(), TchError>(TchError::DeviceMismatch) && *final(tensors) == *old(tensors),
            !self.batch_open && 0 <= src_rank < self.size && devices_ok(old(tensors)@, self.device)
                && !buffers_matching(old(tensors)@, message@) ==> r == Err::<(), TchError>(
                TchError::BufferCountMismatch,
            ) && *final(tensors) == *old(tensors),
            !self.batch_open && 0 <= src_rank < self.size && devices_ok(old(tensors)@, self.device)
                && buffers_matching(old(tensors)@, message@) ==> r == Ok::<(), TchError>(())
                && final(tensors)@.len() == old(tensors)@.len() && forall|k: int|
                0 <= k < old(tensors)@.len() ==> (#[trigger] final(tensors)@[k]).kind == old(tensors)@[k].kind && final(tensors)@[k].device == old(tensors)@[k].device && final(tensors)@[k]@ == message@[k]@,
    {
        if self.batch_open {
            return Err(TchError::BatchStateError);
        }
        if src_rank < 0 || src_rank >= self.size {
            return Err(TchError::PeerUnreachable);
        }
        if !check_devices(tensors, self.device) {
            return Err(TchError::DeviceMismatch);
        }
        if !check_matching(tensors, message) {
            return Err(TchError::BufferCountMismatch);
        }
        let mut out: Vec<Buffer> = Vec::new();
        let mut k: usize = 0;
        while k < tensors.len()
            invariant
                buffers_matching(tensors@, message@),
                k <= tensors@.len(),
                out@.len() == k,
                forall|j: int|
                    0 <= j < k ==> (#[trigger] out@[j]).kind == tensors@[j].kind && out@[j].device
                        == tensors@[j].device && out@[j]@ == message@[j]@,
            decreases tensors@.len() - k,
        {
            out.push(
                Buffer {
                    kind: tensors[k].kind,
                    device: tensors[k].device,
                    data: copy_values(&message[k].data),
                },
            );
            k = k + 1;
        }
        *tensors = out;
        Ok(())
    }

    /// Every rank contributes one buffer and receives all `size`
    /// contributions, ordered by rank, into its output list. `inputs[r]` is
    /// the buffer rank `r` contributed; each output buffer keeps its kind
    /// and placement and takes over the matching contribution's values.
    pub fn all_gather(&self, output_tensors: &mut Vec<Buffer>, inputs: &Vec<Buffer>) -> (r: Result<
        (),
        TchError,
    >)
        requires
            self.wf(),
        ensures
            self.batch_open ==> r == Err::<(), TchError>(TchError::BatchStateError) && *final(output_tensors) == *old(output_tensors),
            !self.batch_open && !(inputs@.len() == self.size && old(output_tensors)@.len()
                == self.size) ==> r == Err::<(), TchError>(TchError::BufferCountMismatch) && *final(output_tensors) == *old(output_tensors),
            !self.batch_open && inputs@.len() == self.size && old(output_tensors)@.len()
                == self.size && !devices_ok(old(output_tensors)@, self.device) ==> r == Err::<
                (),
                TchError,
            >(TchError::DeviceMismatch) && *final(output_tensors) == *old(output_tensors),
            !self.batch_open && inputs@.len() == self.size && old(output_tensors)@.len()
                == self.size && devices_ok(old(output_tensors)@, self.device)
                && !buffers_matching(old(output_tensors)@, inputs@) ==> r == Err::<(), TchError>(
                TchError::BufferCountMismatch,
            ) && *final(output_tensors) == *old(output_tensors),
            !self.batch_open && inputs@.len() == self.size && old(output_tensors)@.len()
                == self.size && devices_ok(old(output_tensors)@, self.device) && buffers_matching(
                old(output_tensors)@,
                inputs@,
            ) ==> r == Ok::<(), TchError>(()) && final(output_tensors)@.len() == self.size
                && forall|k: int|
                0 <= k < self.size ==> (#[trigger] final(output_tensors)@[k]).kind == old(output_tensors)@[k].kind && final(output_tensors)@[k].device == old(output_tensors)@[k].device
                    && final(output_tensors)@[k]@ == inputs@[k]@,
    {
        if self.batch_open {
            return Err(TchError::BatchStateError);
        }
        if inputs.len() as u64 != self.size as u64 || output_tensors.len() as u64
            != self.size as u64 {
            return Err(TchError::BufferCountMismatch);
        }
        if !check_devices(output_tensors, self.device) {
            return Err(TchError::DeviceMismatch);
        }
        if !check_matching(output_tensors, inputs) {
            return Err(TchError::BufferCountMismatch);
        }
        let mut out: Vec<Buffer> = Vec::new();
        let mut k: usize = 0;
        while k < output_tensors.len()
            invariant
                buffers_matching(output_tensors@, inputs@),
                k <= output_tensors@.len(),
                out@.len() == k,
                forall|j: int|
                    0 <= j < k ==> (#[trigger] out@[j]).kind == output_tensors@[j].kind
                        && out@[j].device == output_tensors@[j].device && out@[j]@ == inputs@[j]@,
            decreases output_tensors@.len() - k,
        {
            out.push(
                Buffer {
                    kind: output_tensors[k].kind,
                    device: output_tensors[k].device,
                    data: copy_values(&inputs[k].data),
                },
            );
            k = k + 1;
        }
        *output_tensors = out;
        Ok(())
    }

    /// The root rank provides `size` buffers, one destined for each rank;
    /// every rank receives its designated share into its output buffer,
    /// which keeps its kind and placement. Ranks other than the root pass
    /// the root's list along unused by contract; the model hands every rank
    /// the same root list.
    pub fn scatter(&self, output_tensor: &mut Buffer, input_tensors: &Vec<Buffer>, root_rank: i64)
        -> (r: Result<(), TchError>)
        requires
            self.wf(),
        ensures
            self.batch_open ==> r == Err::<(), TchError>(TchError::BatchStateError) && *final(output_tensor) == *old(output_tensor),
            !self.batch_open && !(0 <= root_rank < self.size) ==> r == Err::<(), TchError>(
                TchError::PeerUnreachable,
            ) && *final(output_tensor) == *old(output_tensor),
            !self.batch_open && 0 <= root_rank < self.size && input_tensors@.len() != self.size
                ==> r == Err::<(), TchError>(TchError::BufferCountMismatch) && *final(output_tensor)
                == *old(output_tensor),
            !self.batch_open && 0 <= root_rank < self.size && input_tensors@.len() == self.size
                && old(output_tensor).device != self.device ==> r == Err::<(), TchError>(
                TchError::DeviceMismatch,
            ) && *final(output_tensor) == *old(output_tensor),
            !self.batch_open && 0 <= root_rank < self.size && input_tensors@.len() == self.size
                && old(output_tensor).device == self.device && input_tensors@[self.rank as int]@.len()
                != old(output_tensor)@.len() ==> r == Err::<(), TchError>(
                TchError::BufferCountMismatch,
            ) && *final(output_tensor) == *old(output_tensor),
            !self.batch_open && 0 <= root_rank < self.size && input_tensors@.len() == self.size
                && old(output_tensor).device == self.device && input_tensors@[self.rank as int]@.len()
                == old(output_tensor)@.len() ==> r == Ok::<(), TchError>(()) && final(output_tensor).kind == old(output_tensor).kind && final(output_tensor).device == old(output_tensor).device && final(output_tensor)@ == input_tensors@[self.rank as int]@,
    {
        if self.batch_open {
            return Err(TchError::BatchStateError);
        }
        if root_rank < 0 || root_rank >= self.size {
            return Err(TchError::PeerUnreachable);
        }
        if input_tensors.len() as u64 != self.size as u64 {
            return Err(TchError::BufferCountMismatch);
        }
        if !device_eq(output_tensor.device, self.device) {
            return Err(TchError::DeviceMismatch);
        }
        let own = self.rank as usize;
        if input_tensors[own].data.len() != output_tensor.data.len() {
            return Err(TchError::BufferCountMismatch);
        }
        output_tensor.data = copy_values(&input_tensors[own].data);
        Ok(())
    }
}

/// Tracks which ranks have entered a barrier, for a harness running several
/// ranks in one process.
#[derive(Debug)]
pub struct BarrierSync {
    pub size: i64,
    pub arrived: Vec<bool>,
}

impl BarrierSync {
    /// One arrival slot per rank.
    pub open spec fn wf(self) -> bool {
        &&& 1 <= self.size
        &&& self.arrived@.len() == self.size
    }

    /// The barrier releases once every rank has arrived.
    pub open spec fn released(self) -> bool {
        forall|r: int| 0 <= r < self.arrived@.len() ==> #[trigger] self.arrived@[r]
    }

    /// A fresh barrier: nobody has arrived.
    pub fn new(size: i64) -> (r: BarrierSync)
        requires
            1 <= size <= usize::MAX,
        ensures
            r.wf(),
            r.size == size,
            forall|j: int| 0 <= j < size ==> !(#[trigger] r.arrived@[j]),
    {
        let n = size as usize;
        let mut arrived: Vec<bool> = Vec::new();
        let mut i: usize = 0;
        while i < n
            invariant
                i <= n,
                arrived@.len() == i,
                forall|j: int| 0 <= j < i ==> !(#[trigger] arrived@[j]),
            decreases n - i,
        {
            arrived.push(false);
            i = i + 1;
        }
        BarrierSync { size, arrived }
    }

    /// Whether the barrier has released: exactly when every rank arrived.
    pub fn complete(&self) -> (r: bool)
        ensures
            r == self.released(),
    {
        let mut i: usize = 0;
        while i < self.arrived.len()
            invariant
                i <= self.arrived@.len(),
                forall|j: int| 0 <= j < i ==> #[trigger] self.arrived@[j],
            decreases self.arrived@.len() - i,
        {
            if !self.arrived[i] {
                proof {
                    assert(!self.arrived@[i as int]);
                }
                return false;
            }
            i = i + 1;
        }
        true
    }
}

/// The values all ranks contribute at element `i` of a one-buffer-per-rank
/// collective, in rank order.
pub open spec fn column_single(c: Seq<Buffer>, i: int) -> Seq<i64> {
    Seq::new(c.len() as nat, |r: int| c[r]@[i])
}

/// Every rank's buffer holds as many elements as rank zero's.
pub open spec fn uniform_lens(c: Seq<Buffer>) -> bool {
    forall|r: int| 0 <= r < c.len() ==> (#[trigger] c[r])@.len() == c[0]@.len()
}

/// The misuse error of a one-buffer-per-rank collective, or `None` when the
/// arguments are admissible.
pub open spec fn single_error(
    c: Seq<Buffer>,
    size: int,
    device: Device,
    rank: int,
    batch_open: bool,
) -> Option<TchError> {
    if batch_open {
        Some(TchError::BatchStateError)
    } else if c.len() != size {
        Some(TchError::BufferCountMismatch)
    } else if c[rank].device != device {
        Some(TchError::DeviceMismatch)
    } else if !uniform_lens(c) {
        Some(TchError::BufferCountMismatch)
    } else {
        None
    }
}

/// Every element position's fold across ranks stays within the element
/// type, for a one-buffer-per-rank collective.
pub open spec fn single_fits(op: ReduceOpType, c: Seq<Buffer>) -> bool {
    forall|i: int| 0 <= i < c[0]@.len() ==> fold_fits(op, #[trigger] column_single(c, i))
}

/// Decides `single_error`.
fn validate_single(c: &Vec<Buffer>, size: i64, device: Device, rank: i64, batch_open: bool) -> (r:
    Option<TchError>)
    requires
        1 <= size,
        0 <= rank < size,
    ensures
        r == single_error(c@, size as int, device, rank as int, batch_open),
{
    if batch_open {
        return Some(TchError::BatchStateError);
    }
    if c.len() as u64 != size as u64 {
        return Some(TchError::BufferCountMismatch);
    }
    if !device_eq(c[rank as usize].device, device) {
        return Some(TchError::DeviceMismatch);
    }
    let count = c[0].data.len();
    let mut r: usize = 0;
    while r < c.len()
        invariant
            !batch_open,
            0 <= rank < size,
            c@.len() == size,
            c@[rank as int].device == device,
            count == c@[0]@.len(),
            r <= c@.len(),
            forall|j: int| 0 <= j < r ==> (#[trigger] c@[j])@.len() == count,
        decreases c@.len() - r,
    {
        if c[r].data.len() != count {
            proof {
                assert((c@[r as int])@.len() != c@[0]@.len());
                assert(!uniform_lens(c@));
            }
            return Some(TchError::BufferCountMismatch);
        }
        r = r + 1;
    }
    proof {
        assert(uniform_lens(c@));
    }
    None
}

/// Computes the per-element combination of a one-buffer-per-rank
/// collective, for the calling rank.
fn compute_reduce_single(c: &Vec<Buffer>, op: ReduceOpType, rank: i64, size: i64) -> (out: Buffer)
    requires
        1 <= size,
        0 <= rank < size,
        c@.len() == size,
        uniform_lens(c@),
        single_fits(op, c@),
    ensures
        out.kind == c@[rank as int].kind,
        out.device == c@[rank as int].device,
        out@.len() == c@[rank as int]@.len(),
        forall|i: int|
            0 <= i < out@.len() ==> (#[trigger] out@[i]) as int == combined(
                op,
                column_single(c@, i),
            ),
{
    let n: usize = c.len();
    let elems: usize = c[rank as usize].data.len();
    proof {
        assert(c@[rank as int]@.len() == c@[0]@.len());
    }
    let mut data: Vec<i64> = Vec::new();
    let mut i: usize = 0;
    while i < elems
        invariant
            1 <= size,
            0 <= rank < size,
            n == c@.len() == size,
            uniform_lens(c@),
            single_fits(op, c@),
            elems == c@[rank as int]@.len() == c@[0]@.len(),
            i <= elems,
            data@.len() == i,
            forall|i2: int|
                0 <= i2 < i ==> (#[trigger] data@[i2]) as int == combined(
                    op,
                    column_single(c@, i2),
                ),
        decreases elems - i,
    {
        let mut vals: Vec<i64> = Vec::new();
        let mut r: usize = 0;
        while r < n
            invariant
                n == c@.len(),
                uniform_lens(c@),
                i < c@[0]@.len(),
                r <= n,
                vals@.len() == r,
                forall|r2: int| 0 <= r2 < r ==> vals@[r2] == c@[r2]@[i as int],
            decreases n - r,
        {
            proof {
                assert(c@[r as int]@.len() == c@[0]@.len());
            }
            vals.push(c[r].data[i]);
            r = r + 1;
        }
        proof {
            assert(vals@ =~= column_single(c@, i as int));
            assert(fold_fits(op, column_single(c@, i as int)));
        }
        data.push(reduce_column(op, &vals));
        i = i + 1;
    }
    let own = rank as usize;
    Buffer { kind: c[own].kind, device: c[own].device, data }
}

/// Whether every buffer of `a` holds as many elements as its counterpart in
/// `b`, with the lists themselves of equal length.
pub open spec fn buffers_matching(a: Seq<Buffer>, b: Seq<Buffer>) -> bool {
    &&& a.len() == b.len()
    &&& forall|k: int| 0 <= k < a.len() ==> (#[trigger] a[k])@.len() == b[k]@.len()
}

/// Decides `devices_ok`.
fn check_devices(bufs: &Vec<Buffer>, device: Device) -> (r: bool)
    ensures
        r == devices_ok(bufs@, device),
{
    let mut k: usize = 0;
    while k < bufs.len()
        invariant
            k <= bufs@.len(),
            forall|j: int| 0 <= j < k ==> (#[trigger] bufs@[j]).device == device,
        decreases bufs@.len() - k,
    {
        if !device_eq(bufs[k].device, device) {
            proof {
                assert(bufs@[k as int].device != device);
            }
            return false;
        }
        k = k + 1;
    }
    true
}

/// Decides `buffers_matching`.
fn check_matching(a: &Vec<Buffer>, b: &Vec<Buffer>) -> (r: bool)
    ensures
        r == buffers_matching(a@, b@),
{
    if a.len() != b.len() {
        return false;
    }
    let mut k: usize = 0;
    while k < a.len()
        invariant
            a@.len() == b@.len(),
            k <= a@.len(),
            forall|j: int| 0 <= j < k ==> (#[trigger] a@[j])@.len() == b@[j]@.len(),
        decreases a@.len() - k,
    {
        if a[k].data.len() != b[k].data.len() {
            proof {
                assert((a@[k as int])@.len() != b@[k as int]@.len());
            }
            return false;
        }
        k = k + 1;
    }
    true
}

/// Copies `n` values of a vector starting at `start`.
fn copy_range(v: &Vec<i64>, start: usize, n: usize) -> (r: Vec<i64>)
    requires
        start + n <= v@.len(),
    ensures
        r@ == v@.subrange(start as int, start + n),
{
    let len: usize = v.len();
    let mut out: Vec<i64> = Vec::new();
    let mut i: usize = 0;
    while i < n
        invariant
            start + n <= v@.len(),
            v@.len() == len,
            i <= n,
            out@ == v@.subrange(start as int, start + i),
        decreases n - i,
    {
        out.push(v[start + i]);
        proof {
            assert(out@ =~= v@.subrange(start as int, start + i + 1));
        }
        i = i + 1;
    }
    proof {
        assert(out@ =~= v@.subrange(start as int, start + n));
    }
    out
}

/// Shard `rank` of a buffer's values partitioned into `size` equal pieces.
pub open spec fn shard_of(data: Seq<i64>, size: int, rank: int) -> Seq<i64> {
    let shard = data.len() as int / size;
    data.subrange(rank * shard, (rank + 1) * shard)
}

/// The concatenation of the first `n` ranks' shard values, in rank order.
pub open spec fn concat_data(shards: Seq<Buffer>, n: int) -> Seq<i64>
    decreases n,
{
    if n <= 0 {
        Seq::empty()
    } else {
        concat_data(shards, n - 1) + shards[n - 1]@
    }
}

/// When every rank contributes the value `rank + 1`, the summing collective
/// yields the triangular number `size * (size + 1) / 2` on every rank: the
/// fold never overflows and combines to exactly that value at every element
/// position, provided the total itself fits the element type.
pub proof fn lemma_all_reduce_sum_of_ranks(vals: Seq<i64>)
    requires
        vals.len() >= 1,
        forall|r: int| 0 <= r < vals.len() ==> #[trigger] vals[r] == r + 1,
        vals.len() * (vals.len() + 1) / 2 <= i64::MAX,
    ensures
        fold_fits(ReduceOpType::Sum, vals),
        combined(ReduceOpType::Sum, vals) == vals.len() * (vals.len() + 1) / 2,
    decreases vals.len(),
{
    let n = vals.len() as int;
    let op = ReduceOpType::Sum;
    if n == 1 {
        assert(vals[0] == 1);
        assert(fold_vals(op, vals) == 1);
        assert(1 * (1 + 1) / 2 == 1);
    } else {
        let prefix = vals.drop_last();
        assert(forall|r: int| 0 <= r < prefix.len() ==> #[trigger] prefix[r] == r + 1);
        assert((n - 1) * n <= n * (n + 1)) by (nonlinear_arith)
            requires
                n >= 1,
        ;
        vstd::arithmetic::div_mod::lemma_div_is_ordered((n - 1) * n, n * (n + 1), 2);
        lemma_all_reduce_sum_of_ranks(prefix);
        assert(vals.last() == n);
        assert(fold_vals(op, vals) == (n - 1) * n / 2 + n);
        assert(n * (n + 1) == (n - 1) * n + n * 2) by (nonlinear_arith);
        vstd::arithmetic::div_mod::lemma_hoist_over_denominator((n - 1) * n, n, 2nat);
        assert((n - 1) * n / 2 + n == ((n - 1) * n + n * 2) / 2);
        assert(fold_vals(op, vals) == n * (n + 1) / 2);
        assert(0 <= (n - 1) * n) by (nonlinear_arith)
            requires
                n >= 1,
        ;
        vstd::arithmetic::div_mod::lemma_div_pos_is_pos((n - 1) * n, 2);
        assert(fold_fits(op, vals));
    }
}

/// The summing collective on contribution lists where rank `r` supplies
/// `r + 1` at element `(k, i)`: the column across ranks folds without
/// overflow and combines to the triangular number, so by `all_reduce`'s
/// contract every rank's output holds `size * (size + 1) / 2` there.
pub proof fn lemma_all_reduce_sum_of_ranks_column(c: Seq<Vec<Buffer>>, k: int, i: int)
    requires
        c.len() >= 1,
        forall|r: int| 0 <= r < c.len() ==> 0 <= k < (#[trigger] c[r])@.len(),
        forall|r: int| 0 <= r < c.len() ==> 0 <= i < (#[trigger] c[r])@[k]@.len(),
        forall|r: int| 0 <= r < c.len() ==> (#[trigger] c[r])@[k]@[i] == r + 1,
        c.len() * (c.len() + 1) / 2 <= i64::MAX,
    ensures
        fold_fits(ReduceOpType::Sum, column(c, k, i)),
        combined(ReduceOpType::Sum, column(c, k, i)) == c.len() * (c.len() + 1) / 2,
{
    let col = column(c, k, i);
    assert(col.len() == c.len());
    assert(forall|r: int| 0 <= r < col.len() ==> #[trigger] col[r] == r + 1);
    lemma_all_reduce_sum_of_ranks(col);
}

/// A barrier that has released was entered by every rank: no rank observes
/// the release before all of its peers have arrived.
pub proof fn lemma_barrier_release(sync: BarrierSync)
    requires
        sync.wf(),
        sync.released(),
    ensures
        forall|r: int| 0 <= r < sync.size ==> #[trigger] sync.arrived@[r],
{
}

/// Scattering a buffer into per-rank shards and gathering every rank's
/// shard back, in rank order, reproduces the original values exactly, for
/// any length that divides evenly by the group size.
pub proof fn lemma_scatter_gather_roundtrip(data: Seq<i64>, shards: Seq<Buffer>, size: int)
    requires
        1 <= size,
        data.len() as int % size == 0,
        shards.len() == size,
        forall|r: int| 0 <= r < size ==> (#[trigger] shards[r])@ == shard_of(data, size, r),
    ensures
        concat_data(shards, size) == data,
{
    let shard = data.len() as int / size;
    vstd::arithmetic::div_mod::lemma_fundamental_div_mod(data.len() as int, size);
    assert(size * shard == data.len());
    lemma_concat_shards_prefix(data, shards, size, size);
    assert(size * shard == shard * size) by (nonlinear_arith);
    assert(data.take(size * shard) =~= data);
}

/// The first `n` shards concatenate to the first `n * shard` values.
#[verifier::rlimit(50)]
proof fn lemma_concat_shards_prefix(data: Seq<i64>, shards: Seq<Buffer>, size: int, n: int)
    requires
        1 <= size,
        data.len() as int % size == 0,
        shards.len() == size,
        0 <= n <= size,
        forall|r: int| 0 <= r < size ==> (#[trigger] shards[r])@ == shard_of(data, size, r),
    ensures
        concat_data(shards, n) == data.take(n * (data.len() as int / size)),
    decreases n,
{
    let shard = data.len() as int / size;
    vstd::arithmetic::div_mod::lemma_fundamental_div_mod(data.len() as int, size);
    assert(size * shard == data.len());
    if n == 0 {
        assert(concat_data(shards, 0) == Seq::<i64>::empty());
        assert(n * shard == 0) by (nonlinear_arith)
            requires
                n == 0,
        ;
        assert(data.take(0) =~= Seq::<i64>::empty());
    } else {
        lemma_concat_shards_prefix(data, shards, size, n - 1);
        assert(0 <= (n - 1) * shard && n * shard <= size * shard && (n - 1) * shard + shard == n
            * shard && ((n - 1) + 1) * shard == n * shard) by (nonlinear_arith)
            requires
                1 <= n <= size,
                0 <= shard,
        ;
        assert(concat_data(shards, n) == concat_data(shards, n - 1) + shards[n - 1]@);
        assert(shards[n - 1]@ == shard_of(data, size, n - 1));
        assert(shard_of(data, size, n - 1) == data.subrange((n - 1) * shard, n * shard));
        assert(concat_data(shards, n) == data.take((n - 1) * shard) + data.subrange(
            (n - 1) * shard,
            n * shard,
        ));
        assert(data.take((n - 1) * shard) + data.subrange((n - 1) * shard, n * shard) =~= data.take(
            n * shard,
        ));
    }
}

/// Two registrations that disagree on the group size block formation for
/// every caller: no `(rank, size)` claim makes the group form, so every
/// rank's construction fails rather than proceeding with a partial group.
pub proof fn lemma_mismatched_sizes_block_formation(
    regs: Seq<(i64, i64)>,
    i: int,
    j: int,
    rank: i64,
    size: i64,
)
    requires
        0 <= i < regs.len(),
        0 <= j < regs.len(),
        regs[i].1 != regs[j].1,
    ensures
        !group_ok(regs, rank, size),
{
    if group_ok(regs, rank, size) {
        assert(regs[i].1 == size);
        assert(regs[j].1 == size);
    }
}

} // verus!

