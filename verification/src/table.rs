//! The two lookup tables of a running tunnel, kept in `dashmap::DashMap`.
//!
//! A table is owned by the state that it belongs to, and every change goes through `&mut`. What a
//! table holds is therefore a plain map: nothing changes it between two calls of its owner.

use std::collections::hash_map::RandomState;

use dashmap::DashMap;
use vstd::prelude::*;

verus! {

/// `dashmap::DashMap`, carried as it is; what it holds is told by the functions below.
#[verifier::external_type_specification]
#[verifier::external_body]
#[verifier::reject_recursive_types(K)]
#[verifier::reject_recursive_types(V)]
#[verifier::reject_recursive_types(S)]
pub struct ExDashMap<K, V, S>(dashmap::DashMap<K, V, S>);

/// What a table from subdomain to channel holds.
pub uninterp spec fn named_channels(table: DashMap<String, u64, RandomState>) -> Map<
    Seq<char>,
    u64,
>;

/// What a table from request id to channel holds.
pub uninterp spec fn numbered_channels(table: DashMap<u128, u64, RandomState>) -> Map<u128, u64>;

/// `DashMap::new`, for subdomains: a new table holds nothing.
#[verifier::external_body]
pub(crate) fn new_named() -> (table: DashMap<String, u64, RandomState>)
    ensures
        (named_channels(table) == Map::<Seq<char>, u64>::empty()),
{
    DashMap::new()
}

/// `DashMap::contains_key`, for subdomains: whether there is an entry under that name.
#[verifier::external_body]
pub(crate) fn named_contains(
    table: &DashMap<String, u64, RandomState>,
    name: &String,
) -> (found: bool)
    ensures
        found == named_channels(*table).contains_key(name@),
{
    table.contains_key(name)
}

/// `DashMap::get`, for subdomains: a copy of the channel under that name, if there is an entry.
#[verifier::external_body]
pub(crate) fn named_get(
    table: &DashMap<String, u64, RandomState>,
    name: &String,
) -> (channel: Option<u64>)
    ensures
        channel == (if named_channels(*table).contains_key(name@) {
            Some(named_channels(*table)[name@])
        } else {
            None
        }),
{
    table.get(name).map(|entry| *entry.value())
}

/// `DashMap::insert`, for subdomains: the name then leads to that channel, whatever was there
/// before, and every other entry stays as it was.
#[verifier::external_body]
pub(crate) fn named_insert(
    table: &mut DashMap<String, u64, RandomState>,
    name: String,
    channel: u64,
)
    ensures
        named_channels(*final(table)) == named_channels(*old(table)).insert(name@, channel),
{
    table.insert(name, channel);
}

/// `DashMap::remove`, for subdomains: nothing is left under that name, and every other entry stays
/// as it was.
#[verifier::external_body]
pub(crate) fn named_remove(table: &mut DashMap<String, u64, RandomState>, name: &String)
    ensures
        named_channels(*final(table)) == named_channels(*old(table)).remove(name@),
{
    table.remove(name);
}

/// `DashMap::new`, for request ids: a new table holds nothing.
#[verifier::external_body]
pub(crate) fn new_numbered() -> (table: DashMap<u128, u64, RandomState>)
    ensures
        (numbered_channels(table) == Map::<u128, u64>::empty()),
{
    DashMap::new()
}

/// `DashMap::get`, for request ids: a copy of the channel under that id, if there is an entry.
#[verifier::external_body]
pub(crate) fn numbered_get(
    table: &DashMap<u128, u64, RandomState>,
    id: u128,
) -> (channel: Option<u64>)
    ensures
        channel == channel_of(numbered_channels(*table), id),
{
    table.get(&id).map(|entry| *entry.value())
}

/// What a table from request id to channel holds under that id.
pub open spec fn channel_of(channels: Map<u128, u64>, id: u128) -> Option<u64> {
    if channels.contains_key(id) {
        Some(channels[id])
    } else {
        None
    }
}

/// Whether no id leads to that channel.
pub open spec fn unused(channels: Map<u128, u64>, channel: u64) -> bool {
    forall|id: u128| #[trigger] channels.contains_key(id) ==> channels[id] != channel
}

/// Whether no id but that one leads to that channel, and that one to no other.
pub open spec fn alone_on(channels: Map<u128, u64>, id: u128, channel: u64) -> bool {
    forall|other: u128| #[trigger]
        channels.contains_key(other) ==> (channels[other] == channel <==> other == id)
}

/// `DashMap::insert`, for request ids: the id then leads to that channel, and every other entry
/// stays as it was. What the id led to before comes back.
#[verifier::external_body]
pub(crate) fn numbered_insert(
    table: &mut DashMap<u128, u64, RandomState>,
    id: u128,
    channel: u64,
) -> (replaced: Option<u64>)
    ensures
        numbered_channels(*final(table)) == numbered_channels(*old(table)).insert(id, channel),
        replaced == channel_of(numbered_channels(*old(table)), id),
{
    table.insert(id, channel)
}

/// `DashMap::remove`, for request ids: nothing is left under that id, and every other entry stays
/// as it was. What the id led to comes back.
#[verifier::external_body]
pub(crate) fn numbered_remove(
    table: &mut DashMap<u128, u64, RandomState>,
    id: u128,
) -> (removed: Option<u64>)
    ensures
        numbered_channels(*final(table)) == numbered_channels(*old(table)).remove(id),
        removed == channel_of(numbered_channels(*old(table)), id),
{
    table.remove(&id).map(|entry| entry.1)
}

} // verus!
