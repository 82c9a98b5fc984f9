//! The player: the loot counter and the place the player is spawned at.

use crate::{Position, SpawnLocations, LANES};
use vstd::prelude::*;

verus! {

/// The loot the player has collected in the running session.
#[derive(Clone, Copy, Debug, PartialEq, Eq, Structural)]
pub struct PlayerLoot(pub i32);

impl Default for PlayerLoot {
    fn default() -> (loot: PlayerLoot)
        ensures
            loot.0 == 0,
    {
        PlayerLoot(0)
    }
}

/// The counter after `collected` more items: one more for each, up to the
/// largest count the counter can hold.
pub open spec fn spec_looted(loot: i32, collected: nat) -> int {
    if loot + collected <= i32::MAX {
        loot + collected
    } else {
        i32::MAX as int
    }
}

impl PlayerLoot {
    /// Counts one collected item, unless the counter is full.
    pub fn collect(&mut self)
        ensures
            final(self).0 == spec_looted(old(self).0, 1),
    {
        if self.0 < i32::MAX {
            self.0 = self.0 + 1;
        }
    }
}

/// A request to spawn the player in a lane.
#[derive(Clone, Copy, Debug, PartialEq, Eq, Structural)]
pub struct SpawnPlayer(pub usize);

/// The places at which the requests spawn a player, in order: the character
/// position of the requested lane. A request for a lane that does not exist
/// spawns nothing.
pub open spec fn spec_player_spawns(requests: Seq<SpawnPlayer>, table: SpawnLocations) -> Seq<
    Position,
>
    decreases requests.len(),
{
    if requests.len() == 0 {
        Seq::empty()
    } else if requests.last().0 < LANES {
        spec_player_spawns(requests.drop_last(), table).push(
            table.characters[requests.last().0 as int],
        )
    } else {
        spec_player_spawns(requests.drop_last(), table)
    }
}

/// Serves the requests to spawn the player and returns where each is to
/// appear.
pub fn evr_spawn_player(requests: &Vec<SpawnPlayer>, spawn_locations: &SpawnLocations) -> (spawns:
    Vec<Position>)
    ensures
        spawns@ == spec_player_spawns(requests@, *spawn_locations),
{
    let mut spawns: Vec<Position> = Vec::new();
    let mut i: usize = 0;
    while i < requests.len()
        invariant
            i <= requests@.len(),
            spawns@ == spec_player_spawns(requests@.take(i as int), *spawn_locations),
        decreases requests@.len() - i,
    {
        assert(requests@.take(i as int + 1).drop_last() == requests@.take(i as int));
        let lane = requests[i].0;
        if lane < LANES {
            spawns.push(spawn_locations.characters[lane]);
        }
        i += 1;
    }
    assert(requests@.take(i as int) == requests@);
    spawns
}

/// Queues the request that a session's entry makes: the player in the
/// middle lane.
pub fn evw_spawn_player(evw_spawn_player: &mut Vec<SpawnPlayer>)
    ensures
        final(evw_spawn_player)@ == old(evw_spawn_player)@.push(SpawnPlayer(0)),
{
    evw_spawn_player.push(SpawnPlayer(0));
}

} // verus!
