//! Retail domain events.

use crate::prob::{clamp_i64, saturate_i64};
use vstd::prelude::*;

verus! {

pub type CustomerId = u64;

pub type SkuId = u64;

pub type OrderId = u64;

pub type MoneyCents = i64;

#[derive(Debug, Clone, Copy, PartialEq, Eq, Structural)]
pub struct OrderLine {
    pub sku_id: SkuId,
    pub qty: u32,
    pub price_cents: MoneyCents,
}

#[derive(Debug, Clone, PartialEq, Eq)]
pub struct OrderPlaced {
    pub order_id: OrderId,
    pub customer_id: CustomerId,
    pub lines: Vec<OrderLine>,
    pub ts_ms: u64,
}

/// The amount of one line: price times quantity, saturated to `i64`.
pub open spec fn line_cents(l: OrderLine) -> i64 {
    clamp_i64(l.price_cents * l.qty)
}

/// The total of the first `n` lines: a running sum of line amounts that
/// saturates at the bounds of `i64` at each step.
pub open spec fn lines_total(lines: Seq<OrderLine>, n: nat) -> i64
    decreases n,
{
    if n == 0 || n > lines.len() {
        0
    } else {
        clamp_i64(lines_total(lines, (n - 1) as nat) + line_cents(lines[n - 1]))
    }
}

impl OrderPlaced {
    pub open spec fn spec_total_cents(&self) -> i64 {
        lines_total(self.lines@, self.lines@.len())
    }

    /// The order total in cents, summed with saturation.
    pub fn total_cents(&self) -> (r: MoneyCents)
        ensures
            r == self.spec_total_cents(),
    {
        let mut total: i64 = 0;
        let mut i: usize = 0;
        while i < self.lines.len()
            invariant
                i <= self.lines@.len(),
                total == lines_total(self.lines@, i as nat),
            decreases self.lines@.len() - i,
        {
            let l = self.lines[i];
            proof {
                let p = l.price_cents as int;
                let q = l.qty as int;
                assert(-0x8000_0000_0000_0000 * 0xffff_ffff <= p * q <= 0x7fff_ffff_ffff_ffff * 0xffff_ffff)
                    by (nonlinear_arith)
                    requires
                        -0x8000_0000_0000_0000 <= p <= 0x7fff_ffff_ffff_ffff,
                        0 <= q <= 0xffff_ffff,
                ;
            }
            let line = saturate_i64((l.price_cents as i128) * (l.qty as i128));
            total = saturate_i64((total as i128) + (line as i128));
            i = i + 1;
        }
        total
    }
}

#[derive(Debug, Clone, PartialEq, Eq)]
pub enum RetailEvent {
    OrderPlaced(OrderPlaced),
    InventoryAdjusted { sku_id: SkuId, delta_qty: i32, ts_ms: u64 },
}

} // verus!
