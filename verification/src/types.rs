use vstd::prelude::*;
use vstd::std_specs::cmp::PartialEqSpecImpl;

use crate::rate_table::RateTable;

verus! {

/// One attribute of an event: a key and its value.
#[derive(Clone, Debug)]
pub struct FeedDataTxLogEventAttribute {
    pub key: String,
    pub value: String,
}

/// One event of a transaction log.
#[derive(Clone, Debug)]
pub struct FeedDataTxLogEvent {
    /// The `type` of the event.
    pub event_type: String,
    pub attributes: Vec<FeedDataTxLogEventAttribute>,
}

/// One log of a transaction.
#[derive(Clone, Debug)]
pub struct FeedDataTxLog {
    pub events: Vec<FeedDataTxLogEvent>,
}

/// One transaction of a block.
#[derive(Clone, Debug)]
pub struct FeedDataTx {
    pub logs: Vec<FeedDataTxLog>,
}

/// The payload of a block message.
#[derive(Clone, Debug)]
pub struct FeedData {
    pub txs: Vec<FeedDataTx>,
}

/// A block message of the feed.
#[derive(Clone, Debug)]
pub struct Feed {
    pub chain_id: String,
    /// The `type` of the message.
    pub block_type: String,
    pub data: FeedData,
}

/// Name of an asset, such as `uusd`.
pub type Asset = String;

/// A decimal number `mantissa / 10^scale`, the value of one exchange rate.
/// Two rates are equal when they stand for the same number, as two
/// `rust_decimal::Decimal`s are: `1.5` equals `1.50`.
#[derive(Clone, Copy, Debug)]
pub struct ExchangeRate {
    pub mantissa: i128,
    pub scale: u32,
}

/// Ten to the power `n`.
pub open spec fn pow10(n: nat) -> int
    decreases n,
{
    if n == 0 {
        1
    } else {
        10 * pow10((n - 1) as nat)
    }
}

/// Two rates stand for the same number: `a.mantissa / 10^a.scale` equals
/// `b.mantissa / 10^b.scale`.
pub open spec fn same_value(a: ExchangeRate, b: ExchangeRate) -> bool {
    a.mantissa * pow10(b.scale as nat) == b.mantissa * pow10(a.scale as nat)
}

/// A rate written with no trailing zero after the point.
pub open spec fn is_reduced(r: ExchangeRate) -> bool {
    r.scale == 0 || r.mantissa % 10 != 0
}

proof fn lemma_pow10_pos(n: nat)
    ensures
        pow10(n) > 0,
    decreases n,
{
    if n > 0 {
        lemma_pow10_pos((n - 1) as nat);
    }
}

proof fn lemma_pow10_add(a: nat, b: nat)
    ensures
        pow10(a + b) == pow10(a) * pow10(b),
    decreases b,
{
    if b > 0 {
        lemma_pow10_add(a, (b - 1) as nat);
        assert(((a + b) - 1) as nat == a + (b - 1) as nat);
        let x = pow10(a);
        let y = pow10((b - 1) as nat);
        assert(10 * (x * y) == x * (10 * y)) by (nonlinear_arith);
    }
}

proof fn lemma_same_value_trans(a: ExchangeRate, b: ExchangeRate, c: ExchangeRate)
    requires
        same_value(a, b),
        same_value(b, c),
    ensures
        same_value(a, c),
{
    let pa = pow10(a.scale as nat);
    let pb = pow10(b.scale as nat);
    let pc = pow10(c.scale as nat);
    lemma_pow10_pos(b.scale as nat);
    let am = a.mantissa as int;
    let bm = b.mantissa as int;
    let cm = c.mantissa as int;
    assert(am * pc == cm * pa) by (nonlinear_arith)
        requires
            am * pb == bm * pa,
            bm * pc == cm * pb,
            pb > 0,
    {
        assert((am * pc) * pb == (am * pb) * pc);
        assert((am * pb) * pc == (bm * pa) * pc);
        assert((bm * pa) * pc == (bm * pc) * pa);
        assert((bm * pc) * pa == (cm * pb) * pa);
        assert((cm * pb) * pa == (cm * pa) * pb);
    }
}

proof fn lemma_reduced_unique_ordered(a: ExchangeRate, b: ExchangeRate)
    requires
        is_reduced(a),
        is_reduced(b),
        same_value(a, b),
        a.scale <= b.scale,
    ensures
        a.mantissa == b.mantissa,
        a.scale == b.scale,
{
    let d = (b.scale - a.scale) as nat;
    let pa = pow10(a.scale as nat);
    let pd = pow10(d);
    lemma_pow10_add(a.scale as nat, d);
    assert(a.scale as nat + d == b.scale as nat);
    lemma_pow10_pos(a.scale as nat);
    let am = a.mantissa as int;
    let bm = b.mantissa as int;
    assert(am * pd == bm) by (nonlinear_arith)
        requires
            am * (pa * pd) == bm * pa,
            pa > 0,
    {
        assert((am * pd) * pa == am * (pa * pd));
    }
    if d > 0 {
        let k = am * pow10((d - 1) as nat);
        assert(am * pd == 10 * k) by (nonlinear_arith)
            requires
                pd == 10 * pow10((d - 1) as nat),
                k == am * pow10((d - 1) as nat),
        ;
        assert(bm % 10 == 0);
        assert(false);
    }
}

proof fn lemma_reduced_unique(a: ExchangeRate, b: ExchangeRate)
    requires
        is_reduced(a),
        is_reduced(b),
        same_value(a, b),
    ensures
        a.mantissa == b.mantissa,
        a.scale == b.scale,
{
    if a.scale <= b.scale {
        lemma_reduced_unique_ordered(a, b);
    } else {
        lemma_reduced_unique_ordered(b, a);
    }
}

impl ExchangeRate {
    /// The same number written with no trailing zero after the point.
    pub fn reduce(self) -> (reduced: ExchangeRate)
        ensures
            same_value(reduced, self),
            is_reduced(reduced),
    {
        let mut m = self.mantissa;
        let mut s = self.scale;
        while s > 0 && m % 10 == 0
            invariant
                same_value(ExchangeRate { mantissa: m, scale: s }, self),
            decreases s,
        {
            let q = m / 10;
            proof {
                let ps = pow10(self.scale as nat);
                let pt = pow10((s - 1) as nat);
                assert(pow10(s as nat) == 10 * pt);
                assert(m == 10 * q);
                let sm = self.mantissa as int;
                assert(q * ps == sm * pt) by (nonlinear_arith)
                    requires
                        m * ps == sm * (10 * pt),
                        m == 10 * q,
                {
                    assert(10 * (q * ps) == 10 * (sm * pt));
                }
            }
            m = q;
            s = s - 1;
        }
        ExchangeRate { mantissa: m, scale: s }
    }
}

impl PartialEq for ExchangeRate {
    fn eq(&self, other: &Self) -> (equal: bool) {
        let a = self.reduce();
        let b = other.reduce();
        proof {
            if same_value(*self, *other) {
                lemma_same_value_trans(a, *self, *other);
                lemma_same_value_trans(a, *other, b);
                lemma_reduced_unique(a, b);
            }
            if a.mantissa == b.mantissa && a.scale == b.scale {
                lemma_same_value_trans(*self, a, b);
                lemma_same_value_trans(*self, b, *other);
            }
        }
        a.mantissa == b.mantissa && a.scale == b.scale
    }
}

impl PartialEqSpecImpl for ExchangeRate {
    open spec fn obeys_eq_spec() -> bool {
        true
    }

    open spec fn eq_spec(&self, other: &ExchangeRate) -> bool {
        same_value(*self, *other)
    }
}

/// The exchange rates found in one block.
#[derive(Debug, PartialEq)]
pub struct OutputData {
    pub luna_exch_rates: RateTable,
}

/// Why the exchange rates of a block could not be read.
#[derive(Clone, Copy, Debug, PartialEq, Eq, Structural)]
pub enum StreamError {
    /// An entry of the exchange-rate list holds no asset name.
    SymbolNotFound,
    /// An entry of the exchange-rate list holds no number.
    RateNotFound,
    /// The number of an entry is not a decimal that `rust_decimal` accepts.
    InvalidRate,
}

/// The configuration as written in the configuration file.
#[derive(Clone, Debug)]
pub struct RawConfig {
    pub web_socket_url: String,
    pub web_socket_feed: String,
    pub server_address: String,
    pub server_port: u16,
}

} // verus!
