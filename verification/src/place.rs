//! Where a trade takes place on the map.

use crate::trade::TradeTarget;
use crate::types::{dist2, BuildingID, SoulID, Vec2};
use std::collections::BTreeMap;
use vstd::prelude::*;
use vstd::std_specs::btree::*;

verus! {

/// A building, as far as trade is concerned: where its door is.
#[derive(Clone, Copy, Debug, PartialEq, Eq, Structural)]
pub struct Building {
    pub id: BuildingID,
    pub door_pos: Vec2,
}

/// Which building each agent owns. An agent owns at most one.
pub struct BuildingInfos {
    owned: BTreeMap<u64, BuildingID>,
}

impl View for BuildingInfos {
    type V = Map<u64, BuildingID>;

    closed spec fn view(&self) -> Map<u64, BuildingID> {
        self.owned@
    }
}

impl BuildingInfos {
    /// Nobody owns anything.
    pub fn new() -> (infos: BuildingInfos)
        ensures
            infos@ == Map::<u64, BuildingID>::empty(),
    {
        BuildingInfos { owned: BTreeMap::new() }
    }

    /// Makes `soul` the owner of `building`, in place of what it owned before.
    pub fn set_owner(&mut self, building: BuildingID, soul: SoulID)
        ensures
            final(self)@ == old(self)@.insert(soul.0, building),
    {
        broadcast use group_btree_axioms;

        self.owned.insert(soul.0, building);
    }

    /// The building that `soul` owns, if it owns one.
    pub fn building_owned_by(&self, soul: SoulID) -> (building: Option<BuildingID>)
        ensures
            building == if self@.contains_key(soul.0) {
                Some(self@[soul.0])
            } else {
                None
            },
    {
        broadcast use group_btree_axioms;

        match self.owned.get(&soul.0) {
            Some(building) => Some(*building),
            None => None,
        }
    }
}

/// Whether building number `i` of `stations` is the nearest to `pos`: no
/// door is closer, and those before it in the list are farther away.
pub open spec fn is_nearest(stations: Seq<Building>, pos: Vec2, i: int) -> bool {
    &&& 0 <= i < stations.len()
    &&& forall|j: int|
        0 <= j < stations.len() ==> dist2(stations[i].door_pos, pos) <= dist2(
            #[trigger] stations[j].door_pos,
            pos,
        )
    &&& forall|j: int|
        0 <= j < i ==> dist2(stations[i].door_pos, pos) < dist2(
            #[trigger] stations[j].door_pos,
            pos,
        )
}

/// The building at which `target` trades when the other side stands at
/// `pos`: for an agent the building that it owns, for the outside market the
/// freight station of `stations` whose door is nearest to `pos`, the first
/// such in the list if several are equally near.
pub fn find_trade_place(
    target: TradeTarget,
    pos: Vec2,
    binfos: &BuildingInfos,
    stations: &Vec<Building>,
) -> (place: Option<BuildingID>)
    ensures
        match target {
            TradeTarget::Soul(soul) => place == if binfos@.contains_key(soul.0) {
                Some(binfos@[soul.0])
            } else {
                None
            },
            TradeTarget::ExternalTrade => match place {
                Some(id) => exists|i: int|
                    is_nearest(stations@, pos, i) && id == (#[trigger] stations@[i]).id,
                None => stations@.len() == 0,
            },
        },
{
    match target {
        TradeTarget::Soul(soul) => binfos.building_owned_by(soul),
        TradeTarget::ExternalTrade => {
            if stations.len() == 0 {
                return None;
            }
            let mut best: usize = 0;
            let mut least: u128 = stations[0].door_pos.distance2(pos);
            let mut k: usize = 1;
            while k < stations.len()
                invariant
                    1 <= k <= stations@.len(),
                    best < k,
                    least == dist2(stations@[best as int].door_pos, pos),
                    forall|j: int|
                        0 <= j < k ==> least <= dist2(#[trigger] stations@[j].door_pos, pos),
                    forall|j: int|
                        0 <= j < best ==> least < dist2(#[trigger] stations@[j].door_pos, pos),
                decreases stations@.len() - k,
            {
                let d = stations[k].door_pos.distance2(pos);
                if d < least {
                    best = k;
                    least = d;
                }
                k += 1;
            }
            proof {
                assert(is_nearest(stations@, pos, best as int));
            }
            Some(stations[best].id)
        },
    }
}

} // verus!
