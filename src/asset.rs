//! One listed asset: its identity, its display metadata and the utilization
//! and APY cached from the last refresh against its reserve.
use vstd::prelude::*;
use crate::fixed_point::{div_half_even, ratio_half_even, SCALE};
use crate::rate_model::RateModel;

verus! {

/// The errors of the market.
#[derive(Clone, Copy, Debug, PartialEq, Eq, Structural)]
pub enum MarketError {
    /// The identity is already registered.
    DuplicateAsset,
    /// No asset is registered under the identity.
    UnknownAsset,
    /// The asset's name or symbol could not be had.
    MetadataUnavailable,
    /// The reserve reported more borrowed than supplied.
    ReserveInvariantViolation,
}

/// The opaque identifier of an asset: the bytes of its resource address.
#[derive(Clone, Debug)]
pub struct AssetId {
    bytes: Vec<u8>,
}

impl View for AssetId {
    type V = Seq<u8>;

    closed spec fn view(&self) -> Seq<u8> {
        self.bytes@
    }
}

impl AssetId {
    pub fn new(bytes: Vec<u8>) -> (id: AssetId)
        ensures
            id@ == bytes@,
    {
        AssetId { bytes }
    }

    pub fn as_bytes(&self) -> (b: &[u8])
        ensures
            b@ == self@,
    {
        self.bytes.as_slice()
    }

    /// Whether both identifiers hold the same bytes.
    pub fn same_as(&self, other: &AssetId) -> (r: bool)
        ensures
            r == (self@ == other@),
    {
        let n = self.bytes.len();
        if n != other.bytes.len() {
            return false;
        }
        let mut i: usize = 0;
        while i < n
            invariant
                n == self.bytes@.len(),
                n == other.bytes@.len(),
                i <= n,
                forall|j: int| 0 <= j < i ==> self.bytes@[j] == other.bytes@[j],
            decreases n - i,
        {
            if self.bytes[i] != other.bytes[i] {
                return false;
            }
            i = i + 1;
        }
        assert(self.bytes@ =~= other.bytes@);
        true
    }
}

/// The two balances of a reserve read at one instant, in fixed-point units.
#[derive(Clone, Copy, Debug, PartialEq, Eq, Structural)]
pub struct ReserveSnapshot {
    pub supplied: u128,
    pub borrowed: u128,
}

/// Utilization of a reserve as a fixed-point decimal: zero for an empty
/// reserve, else `borrowed / supplied` rounded half to even and clamped to 1.
pub open spec fn utilization_of(supplied: int, borrowed: int) -> int {
    if supplied == 0 {
        0
    } else {
        let q = div_half_even(borrowed * SCALE, supplied);
        if q > SCALE {
            SCALE as int
        } else {
            q
        }
    }
}

/// What an asset entry holds, as mathematical values.
pub struct AssetEntryView {
    pub identity: Seq<u8>,
    pub name: Seq<char>,
    pub symbol: Seq<char>,
    pub rate_model: RateModel,
    pub utilization: int,
    pub apy: int,
}

impl AssetEntryView {
    /// The curve is well formed, utilization lies in `[0, 1]` and the APY is
    /// the curve's value at it.
    pub open spec fn wf(self) -> bool {
        &&& self.rate_model.wf()
        &&& 0 <= self.utilization <= SCALE
        &&& self.apy == self.rate_model.apy_of(self.utilization)
    }

    /// The entry after a refresh against `snapshot`: unchanged where the
    /// snapshot breaks `borrowed <= supplied`, else with both metrics
    /// recomputed from it.
    pub open spec fn refreshed(self, snapshot: ReserveSnapshot) -> AssetEntryView {
        if snapshot.borrowed > snapshot.supplied {
            self
        } else {
            let u = utilization_of(snapshot.supplied as int, snapshot.borrowed as int);
            AssetEntryView { utilization: u, apy: self.rate_model.apy_of(u), ..self }
        }
    }
}

/// A listed asset and its cached rate metrics.
#[derive(Clone, Debug)]
pub struct AssetEntry {
    identity: AssetId,
    name: String,
    symbol: String,
    rate_model: RateModel,
    utilization: u128,
    apy: u128,
}

impl View for AssetEntry {
    type V = AssetEntryView;

    closed spec fn view(&self) -> AssetEntryView {
        AssetEntryView {
            identity: self.identity@,
            name: self.name@,
            symbol: self.symbol@,
            rate_model: self.rate_model,
            utilization: self.utilization as int,
            apy: self.apy as int,
        }
    }
}

impl AssetEntry {
    /// The curve is well formed, utilization lies in `[0, 1]` and the APY is
    /// the curve's value at it.
    pub open spec fn wf(&self) -> bool {
        self@.wf()
    }

    /// A new entry with utilization zero and the APY of the curve there;
    /// fails with `MetadataUnavailable` when the name or the symbol is absent.
    pub fn new(
        identity: AssetId,
        name: Option<String>,
        symbol: Option<String>,
        rate_model: RateModel,
    ) -> (r: Result<AssetEntry, MarketError>)
        requires
            rate_model.wf(),
        ensures
            r is Err <==> (name is None || symbol is None),
            r is Err ==> r == Err::<AssetEntry, MarketError>(MarketError::MetadataUnavailable),
            r matches Ok(e) ==> {
                &&& e.wf()
                &&& e@.identity == identity@
                &&& e@.name == name.unwrap()@
                &&& e@.symbol == symbol.unwrap()@
                &&& e@.rate_model == rate_model
                &&& e@.utilization == 0
                &&& e@.apy == rate_model.apy_of(0)
            },
    {
        match (name, symbol) {
            (Some(name), Some(symbol)) => {
                let apy = rate_model.calc_apy(0);
                Ok(AssetEntry { identity, name, symbol, rate_model, utilization: 0, apy })
            },
            _ => Err(MarketError::MetadataUnavailable),
        }
    }

    /// Recomputes utilization and APY together from `snapshot`. A snapshot with
    /// more borrowed than supplied fails with `ReserveInvariantViolation` and
    /// leaves the entry as it was. The entry keeps what the last successful
    /// refresh computed: a reserve that changes afterwards is not seen until
    /// the caller refreshes again.
    pub fn update(&mut self, snapshot: ReserveSnapshot) -> (r: Result<(), MarketError>)
        requires
            old(self).wf(),
        ensures
            final(self).wf(),
            final(self)@ == old(self)@.refreshed(snapshot),
            r == if snapshot.borrowed > snapshot.supplied {
                Err::<(), MarketError>(MarketError::ReserveInvariantViolation)
            } else {
                Ok(())
            },
    {
        if snapshot.borrowed > snapshot.supplied {
            return Err(MarketError::ReserveInvariantViolation);
        }
        let utilization = AssetEntry::calc_utilization(snapshot.supplied, snapshot.borrowed);
        let apy = self.calc_apy(utilization);
        self.utilization = utilization;
        self.apy = apy;
        Ok(())
    }

    /// The APY of this entry's curve at `utilization`.
    pub fn calc_apy(&self, utilization: u128) -> (apy: u128)
        requires
            self.wf(),
            utilization <= SCALE,
        ensures
            apy == self@.rate_model.apy_of(utilization as int),
    {
        self.rate_model.calc_apy(utilization)
    }

    /// Utilization of a reserve holding `supplied` with `borrowed` lent out:
    /// zero when nothing is supplied, else `borrowed / supplied` within half a
    /// unit of the last digit, rounded half to even and never above 1.
    pub fn calc_utilization(supplied: u128, borrowed: u128) -> (u: u128)
        ensures
            u == utilization_of(supplied as int, borrowed as int),
            u <= SCALE,
            supplied == 0 ==> u == 0,
            supplied > 0 && borrowed <= supplied ==> {
                let err = u * supplied - borrowed * SCALE;
                2 * err <= supplied && -2 * err <= supplied
            },
    {
        if supplied == 0 {
            return 0;
        }
        if borrowed >= supplied {
            proof {
                lemma_ratio_at_least_one(supplied as int, borrowed as int);
            }
            return SCALE;
        }
        let u = ratio_half_even(borrowed, supplied);
        proof {
            lemma_rounding_error(borrowed * SCALE, supplied as int);
        }
        u
    }

    pub fn identity(&self) -> (id: &AssetId)
        ensures
            id@ == self@.identity,
    {
        &self.identity
    }

    pub fn name(&self) -> (s: &str)
        ensures
            s@ == self@.name,
    {
        self.name.as_str()
    }

    pub fn symbol(&self) -> (s: &str)
        ensures
            s@ == self@.symbol,
    {
        self.symbol.as_str()
    }

    pub fn rate_model(&self) -> (m: RateModel)
        ensures
            m == self@.rate_model,
    {
        self.rate_model
    }

    pub fn utilization(&self) -> (u: u128)
        ensures
            u == self@.utilization,
    {
        self.utilization
    }

    pub fn apy(&self) -> (a: u128)
        ensures
            a == self@.apy,
    {
        self.apy
    }
}

/// Refreshing twice against the same snapshot leaves the entry as one
/// refresh did.
pub proof fn lemma_refresh_idempotent(e: AssetEntryView, snapshot: ReserveSnapshot)
    ensures
        e.refreshed(snapshot).refreshed(snapshot) == e.refreshed(snapshot),
{
}

/// Where nothing less than the supply is borrowed the rounded ratio is at least one.
proof fn lemma_ratio_at_least_one(supplied: int, borrowed: int)
    requires
        0 < supplied <= borrowed,
    ensures
        utilization_of(supplied, borrowed) == SCALE,
{
    let n = borrowed * SCALE;
    let q = n / supplied;
    assert(q >= SCALE) by (nonlinear_arith)
        requires
            0 < supplied <= borrowed,
            n == borrowed * SCALE,
            q == n / supplied,
    ;
}

/// A quotient rounded half to even lies within half a divisor of the exact one.
proof fn lemma_rounding_error(n: int, d: int)
    requires
        n >= 0,
        d > 0,
    ensures
        2 * (div_half_even(n, d) * d - n) <= d,
        -2 * (div_half_even(n, d) * d - n) <= d,
{
    let q = n / d;
    let r = n % d;
    assert(n == q * d + r && 0 <= r < d) by (nonlinear_arith)
        requires
            d > 0,
            q == n / d,
            r == n % d,
    ;
    assert((q + 1) * d == q * d + d) by (nonlinear_arith);
}

} // verus!
