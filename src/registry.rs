//! The listed assets, each under a distinct identity.
use vstd::prelude::*;
use crate::asset::{AssetEntry, AssetEntryView, AssetId, MarketError, ReserveSnapshot};
use crate::rate_model::RateModel;

verus! {

/// No two entries share an identity.
pub open spec fn identities_distinct(entries: Seq<AssetEntryView>) -> bool {
    forall|i: int, j: int|
        0 <= i < entries.len() && 0 <= j < entries.len() && i != j ==> entries[i].identity
            != entries[j].identity
}

/// Some entry is registered under `identity`.
pub open spec fn is_listed(entries: Seq<AssetEntryView>, identity: Seq<u8>) -> bool {
    exists|i: int| 0 <= i < entries.len() && entries[i].identity == identity
}

/// The registry of listed assets, in order of registration; every entry
/// prices with the registry's rate curve.
pub struct AssetRegistry {
    rate_model: RateModel,
    entries: Vec<AssetEntry>,
}

impl View for AssetRegistry {
    type V = Seq<AssetEntryView>;

    closed spec fn view(&self) -> Seq<AssetEntryView> {
        self.entries@.map_values(|e: AssetEntry| e@)
    }
}

impl AssetRegistry {
    /// The curve that new entries are given.
    pub closed spec fn spec_rate_model(&self) -> RateModel {
        self.rate_model
    }

    pub open spec fn wf(&self) -> bool {
        &&& self.spec_rate_model().wf()
        &&& forall|i: int|
            0 <= i < self@.len() ==> (#[trigger] self@[i]).wf() && self@[i].rate_model
                == self.spec_rate_model()
        &&& identities_distinct(self@)
    }

    pub fn new(rate_model: RateModel) -> (r: AssetRegistry)
        requires
            rate_model.wf(),
        ensures
            r.wf(),
            r@ == Seq::<AssetEntryView>::empty(),
            r.spec_rate_model() == rate_model,
    {
        let r = AssetRegistry { rate_model, entries: Vec::new() };
        assert(r@ =~= Seq::<AssetEntryView>::empty());
        r
    }

    pub fn rate_model(&self) -> (m: RateModel)
        ensures
            m == self.spec_rate_model(),
    {
        self.rate_model
    }

    pub fn len(&self) -> (n: usize)
        ensures
            n == self@.len(),
    {
        self.entries.len()
    }

    /// The position of the entry registered under `identity`, if any.
    fn position(&self, identity: &AssetId) -> (r: Option<usize>)
        ensures
            r matches Some(i) ==> i < self@.len() && self@[i as int].identity == identity@,
            r is None ==> !is_listed(self@, identity@),
    {
        let mut i: usize = 0;
        while i < self.entries.len()
            invariant
                i <= self@.len(),
                self@.len() == self.entries@.len(),
                forall|j: int| 0 <= j < i ==> self@[j].identity != identity@,
            decreases self.entries@.len() - i,
        {
            if self.entries[i].identity().same_as(identity) {
                return Some(i);
            }
            i = i + 1;
        }
        None
    }

    /// Lists a new asset under `identity`, with utilization zero and the APY
    /// of the registry's curve there. Fails with `DuplicateAsset` when the
    /// identity is listed, else with `MetadataUnavailable` when the name or
    /// the symbol is absent; a failed call changes nothing.
    pub fn register(
        &mut self,
        identity: AssetId,
        name: Option<String>,
        symbol: Option<String>,
    ) -> (r: Result<(), MarketError>)
        requires
            old(self).wf(),
        ensures
            final(self).wf(),
            final(self).spec_rate_model() == old(self).spec_rate_model(),
            is_listed(old(self)@, identity@) ==> r == Err::<(), MarketError>(
                MarketError::DuplicateAsset,
            ),
            !is_listed(old(self)@, identity@) && (name is None || symbol is None) ==> r
                == Err::<(), MarketError>(MarketError::MetadataUnavailable),
            r is Err ==> final(self)@ == old(self)@,
            r is Ok <==> !is_listed(old(self)@, identity@) && name is Some && symbol is Some,
            r is Ok ==> final(self)@ == old(self)@.push(
                AssetEntryView {
                    identity: identity@,
                    name: name.unwrap()@,
                    symbol: symbol.unwrap()@,
                    rate_model: old(self).spec_rate_model(),
                    utilization: 0,
                    apy: old(self).spec_rate_model().apy_of(0),
                },
            ),
    {
        if self.position(&identity).is_some() {
            return Err(MarketError::DuplicateAsset);
        }
        let ghost id = identity@;
        match AssetEntry::new(identity, name, symbol, self.rate_model) {
            Ok(entry) => {
                let ghost before = self@;
                self.entries.push(entry);
                assert(self@ =~= before.push(entry@));
                Ok(())
            },
            Err(e) => Err(e),
        }
    }

    /// The entry registered under `identity`; fails with `UnknownAsset` when
    /// none is.
    pub fn lookup(&self, identity: &AssetId) -> (r: Result<&AssetEntry, MarketError>)
        requires
            self.wf(),
        ensures
            r is Err <==> !is_listed(self@, identity@),
            r is Err ==> r == Err::<&AssetEntry, MarketError>(MarketError::UnknownAsset),
            r matches Ok(e) ==> e@.identity == identity@ && e.wf() && exists|i: int|
                0 <= i < self@.len() && self@[i] == e@,
    {
        match self.position(identity) {
            Some(i) => {
                assert(is_listed(self@, identity@));
                Ok(&self.entries[i])
            },
            None => Err(MarketError::UnknownAsset),
        }
    }

    /// Refreshes the entry registered under `identity` against `snapshot`
    /// (see `AssetEntry::update`); fails with `UnknownAsset` when none is.
    pub fn update_asset(&mut self, identity: &AssetId, snapshot: ReserveSnapshot) -> (r: Result<
        (),
        MarketError,
    >)
        requires
            old(self).wf(),
        ensures
            final(self).wf(),
            final(self).spec_rate_model() == old(self).spec_rate_model(),
            !is_listed(old(self)@, identity@) ==> r == Err::<(), MarketError>(
                MarketError::UnknownAsset,
            ) && final(self)@ == old(self)@,
            forall|i: int|
                0 <= i < old(self)@.len() && old(self)@[i].identity == identity@ ==> {
                    &&& final(self)@ == old(self)@.update(i, old(self)@[i].refreshed(snapshot))
                    &&& r == if snapshot.borrowed > snapshot.supplied {
                        Err::<(), MarketError>(MarketError::ReserveInvariantViolation)
                    } else {
                        Ok(())
                    }
                },
    {
        match self.position(identity) {
            Some(i) => {
                let ghost before = self@;
                let mut entry = self.entries.remove(i);
                let res = entry.update(snapshot);
                self.entries.insert(i, entry);
                assert(self@ =~= before.update(i as int, before[i as int].refreshed(snapshot)));
                res
            },
            None => Err(MarketError::UnknownAsset),
        }
    }
}

} // verus!
