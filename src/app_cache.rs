use vstd::prelude::*;

use crate::cache::{is_swept, CacheConfig, CacheView, CoalescingCache};
use crate::models::{
    BattleMetricsPlayerResponse, BattleMetricsRecentServers, MapResponse, SCMMTotalInventoryResponse,
    SearchResponse,
};
use crate::state::PartyState;

verus! {

/// Five minutes.
pub const CACHE_TIME_TO_LIVE_MS: u64 = 300_000;

/// One minute.
pub const CACHE_TIME_TO_IDLE_MS: u64 = 60_000;

pub const CACHE_MAX_CAPACITY: u64 = 1000;

/// The settings every cache of the service shares.
pub open spec fn service_cache_config() -> CacheConfig {
    CacheConfig {
        time_to_live_ms: CACHE_TIME_TO_LIVE_MS,
        time_to_idle_ms: Some(CACHE_TIME_TO_IDLE_MS),
        max_capacity: CACHE_MAX_CAPACITY,
    }
}

pub open spec fn empty_cache<V>() -> CacheView<V> {
    CacheView { config: service_cache_config(), entries: Map::empty(), in_flight: Set::empty() }
}

/// The service's caches, one per cached domain.
pub struct AppCache {
    pub bm_user_from_name: CoalescingCache<BattleMetricsPlayerResponse>,
    pub bm_recent_servers: CoalescingCache<BattleMetricsRecentServers>,
    pub rm_search: CoalescingCache<SearchResponse>,
    pub rm_map: CoalescingCache<MapResponse>,
    pub scmm_total_inventory: CoalescingCache<SCMMTotalInventoryResponse>,
    pub party_state: CoalescingCache<PartyState>,
}

fn service_config() -> (r: CacheConfig)
    ensures
        r == service_cache_config(),
{
    CacheConfig {
        time_to_live_ms: CACHE_TIME_TO_LIVE_MS,
        time_to_idle_ms: Some(CACHE_TIME_TO_IDLE_MS),
        max_capacity: CACHE_MAX_CAPACITY,
    }
}

impl AppCache {
    pub open spec fn wf(&self) -> bool {
        &&& self.bm_user_from_name.wf()
        &&& self.bm_recent_servers.wf()
        &&& self.rm_search.wf()
        &&& self.rm_map.wf()
        &&& self.scmm_total_inventory.wf()
        &&& self.party_state.wf()
    }

    /// Six empty caches with a five minute time to live, a one minute time
    /// to idle and room for a thousand entries each.
    pub fn new() -> (r: AppCache)
        ensures
            r.wf(),
            r.bm_user_from_name@ == empty_cache::<BattleMetricsPlayerResponse>(),
            r.bm_recent_servers@ == empty_cache::<BattleMetricsRecentServers>(),
            r.rm_search@ == empty_cache::<SearchResponse>(),
            r.rm_map@ == empty_cache::<MapResponse>(),
            r.scmm_total_inventory@ == empty_cache::<SCMMTotalInventoryResponse>(),
            r.party_state@ == empty_cache::<PartyState>(),
    {
        AppCache {
            bm_user_from_name: CoalescingCache::new(service_config()),
            bm_recent_servers: CoalescingCache::new(service_config()),
            rm_search: CoalescingCache::new(service_config()),
            rm_map: CoalescingCache::new(service_config()),
            scmm_total_inventory: CoalescingCache::new(service_config()),
            party_state: CoalescingCache::new(service_config()),
        }
    }

    /// The entry counts of the six caches, in the order of the fields.
    pub fn get_sizes(&self) -> (r: (u64, u64, u64, u64, u64, u64))
        requires
            self.wf(),
        ensures
            r.0 == self.bm_user_from_name@.entries.dom().len(),
            r.1 == self.bm_recent_servers@.entries.dom().len(),
            r.2 == self.rm_search@.entries.dom().len(),
            r.3 == self.rm_map@.entries.dom().len(),
            r.4 == self.scmm_total_inventory@.entries.dom().len(),
            r.5 == self.party_state@.entries.dom().len(),
    {
        (
            self.bm_user_from_name.size(),
            self.bm_recent_servers.size(),
            self.rm_search.size(),
            self.rm_map.size(),
            self.scmm_total_inventory.size(),
            self.party_state.size(),
        )
    }

    /// Sweeps every cache at time `now`.
    pub fn collect_all(&mut self, now: u64)
        requires
            old(self).wf(),
        ensures
            final(self).wf(),
            is_swept(old(self).bm_user_from_name@, final(self).bm_user_from_name@, now),
            is_swept(old(self).bm_recent_servers@, final(self).bm_recent_servers@, now),
            is_swept(old(self).rm_search@, final(self).rm_search@, now),
            is_swept(old(self).rm_map@, final(self).rm_map@, now),
            is_swept(old(self).scmm_total_inventory@, final(self).scmm_total_inventory@, now),
            is_swept(old(self).party_state@, final(self).party_state@, now),
    {
        self.bm_user_from_name.sweep(now);
        self.bm_recent_servers.sweep(now);
        self.rm_search.sweep(now);
        self.rm_map.sweep(now);
        self.scmm_total_inventory.sweep(now);
        self.party_state.sweep(now);
    }
}

} // verus!
