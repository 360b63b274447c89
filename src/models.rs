use vstd::prelude::*;

use crate::event::JsonValue;

verus! {

/// A BattleMetrics player as this service reports it.
#[derive(Clone)]
pub struct BattleMetricsPlayer {
    /// The player's BattleMetrics id.
    pub bm_id: String,
    pub name: Option<String>,
    pub private: Option<bool>,
    pub last_seen: Option<String>,
}

#[derive(Clone)]
pub struct BattleMetricsPlayerResponse {
    pub data: BattleMetricsPlayer,
}

/// Servers a player has recently been seen on.
#[derive(Clone)]
pub struct BattleMetricsRecentServers {
    pub servers: Vec<BattleMetricsRecentServer>,
}

#[derive(Clone)]
pub struct BattleMetricsRecentServer {
    pub bm_id: String,
    pub name: Option<String>,
    pub styled_ip: Option<String>,
    pub players: Option<u64>,
    pub status: Option<String>,
    pub tags: Option<Vec<String>>,
    pub is_official: Option<bool>,
    pub rust_type: Option<String>,
    pub gamemode: Option<String>,
    pub map_name: Option<String>,
    pub header_url: Option<String>,
    pub url: Option<String>,
    pub description: Option<String>,
    pub last_seen: Option<String>,
    pub first_seen: Option<String>,
    pub time_played: Option<u64>,
    pub online: Option<bool>,
}

pub struct BattleMetricsRelationshipIdentifier {
    pub _type: String,
    pub id: String,
}

pub struct BattleMetricsRelationshipData {
    pub data: BattleMetricsRelationshipIdentifier,
}

pub struct BattleMetricsRelationships {
    pub server: Option<BattleMetricsRelationshipData>,
    pub player: Option<BattleMetricsRelationshipData>,
    pub organizations: Option<BattleMetricsRelationshipData>,
}

pub struct BattleMetricsMeta {
    pub time_played: Option<u64>,
    pub first_seen: Option<String>,
    pub last_seen: Option<String>,
    pub online: Option<bool>,
}

#[derive(Clone)]
pub struct SearchMeta {
    pub status: String,
    pub status_code: u32,
}

/// A game server found by a map search.
#[derive(Clone)]
pub struct Server {
    pub name: String,
    pub map_id: String,
    pub ip: String,
    pub game_port: u16,
    pub last_wipe_utc: String,
}

#[derive(Clone)]
pub struct SearchResponse {
    pub meta: SearchMeta,
    pub data: Vec<Server>,
}

#[derive(Clone)]
pub struct MapMeta {
    pub status: String,
    pub status_code: u32,
}

#[derive(Clone)]
pub struct MapData {
    pub id: String,
    pub _type: String,
    pub seed: u64,
    pub size: u32,
    pub save_version: u32,
    pub image_url: String,
    pub title_base_url: Option<String>,
    pub image_icon_url: Option<String>,
    pub thumbnail_url: Option<String>,
    pub underground_overlay_url: Option<String>,
    pub building_block_area_url: Option<String>,
    pub is_staging: bool,
    pub is_custom_map: bool,
    pub is_for_sale: bool,
    pub is_featured: bool,
    pub has_custom_monuments: bool,
    pub can_download: bool,
    pub download_url: Option<String>,
    pub slug: Option<String>,
    pub monuments: Vec<JsonValue>,
    /// The fields not listed above, as one JSON object.
    pub extra: JsonValue,
}

#[derive(Clone)]
pub struct MapResponse {
    pub meta: MapMeta,
    pub data: MapData,
}

/// Size and market value of a Steam inventory.
#[derive(Clone)]
pub struct SCMMTotalInventoryResponse {
    pub items: u64,
    pub market_value: u64,
    pub market_movement_value: i64,
    pub market_movement_time: String,
}

} // verus!
