//! Guilds and channels grouped by guild, in the order in which the guilds
//! first occur.

use crate::hook::{listed, GuildChannels};
use crate::utils::GuildOrChannel;
use indexmap::IndexMap;
use vstd::prelude::*;

verus! {

/// `indexmap::IndexMap`: a hash map that keeps its entries in the order of
/// their insertion.
#[verifier::external_type_specification]
#[verifier::external_body]
#[verifier::reject_recursive_types(K)]
#[verifier::reject_recursive_types(V)]
#[verifier::reject_recursive_types(S)]
pub struct ExIndexMap<K, V, S>(IndexMap<K, V, S>);

/// Channels by guild; `None` holds the channels outside any guild.
pub type ChannelMap = IndexMap<Option<u64>, Vec<u64>>;

/// The entries of a map, in their order.
pub uninterp spec fn map_entries(map: IndexMap<Option<u64>, Vec<u64>>) -> Seq<
    (Option<u64>, Seq<u64>),
>;

/// The position of the first entry under `key`.
pub open spec fn key_index(entries: Seq<(Option<u64>, Seq<u64>)>, key: Option<u64>) -> Option<int>
    decreases entries.len(),
{
    if entries.len() == 0 {
        None
    } else {
        match key_index(entries.drop_last(), key) {
            Some(i) => Some(i),
            None => if entries.last().0 == key {
                Some(entries.len() - 1)
            } else {
                None
            },
        }
    }
}

/// `key_index` points at an entry under `key`.
pub proof fn lemma_key_index(entries: Seq<(Option<u64>, Seq<u64>)>, key: Option<u64>)
    ensures
        key_index(entries, key) matches Some(i) ==> 0 <= i < entries.len() && entries[i].0 == key,
    decreases entries.len(),
{
    if entries.len() > 0 {
        lemma_key_index(entries.drop_last(), key);
    }
}

/// `IndexMap::new`: a map without entries.
#[verifier::external_body]
fn new_map() -> (map: ChannelMap)
    ensures
        map_entries(map) == Seq::<(Option<u64>, Seq<u64>)>::empty(),
{
    IndexMap::new()
}

/// `IndexMap::get_index_of`: the position of the entry under `key`, if there
/// is one.
#[verifier::external_body]
fn index_of(map: &ChannelMap, key: Option<u64>) -> (at: Option<usize>)
    ensures
        match at {
            Some(i) => key_index(map_entries(*map), key) == Some(i as int),
            None => key_index(map_entries(*map), key) is None,
        },
{
    map.get_index_of(&key)
}

/// `IndexMap::get_index`: the value of the entry at position `at`, if there
/// are that many entries.
#[verifier::external_body]
fn value_at(map: &ChannelMap, at: usize) -> (value: Option<&Vec<u64>>)
    ensures
        match value {
            Some(v) => at < map_entries(*map).len() && v@ == map_entries(*map)[at as int].1,
            None => at >= map_entries(*map).len(),
        },
{
    map.get_index(at).map(|entry| entry.1)
}

/// `IndexMap::insert`: puts `value` under `key`. An entry under the key keeps
/// its place and gets the new value; without one, a new entry is added behind
/// the others.
#[verifier::external_body]
fn insert(map: &mut ChannelMap, key: Option<u64>, value: Vec<u64>)
    ensures
        map_entries(*final(map)) == match key_index(map_entries(*old(map)), key) {
            Some(i) => map_entries(*old(map)).update(i, (key, value@)),
            None => map_entries(*old(map)).push((key, value@)),
        },
{
    map.insert(key, value);
}

/// `entries` with `values` added under `key`: behind what the key holds
/// already, or as a new entry behind the others.
pub open spec fn appended(
    entries: Seq<(Option<u64>, Seq<u64>)>,
    key: Option<u64>,
    values: Seq<u64>,
) -> Seq<(Option<u64>, Seq<u64>)> {
    match key_index(entries, key) {
        Some(i) => entries.update(i, (key, entries[i].1 + values)),
        None => entries.push((key, values)),
    }
}

/// The channels that `items` stand for, by guild. A whole guild stands for
/// the channels that `guild_channels` lists for it; a guild that is not
/// listed there stands for none, but has an entry.
pub open spec fn flattened(items: Seq<GuildOrChannel>, guild_channels: Seq<GuildChannels>) -> Seq<
    (Option<u64>, Seq<u64>),
>
    decreases items.len(),
{
    if items.len() == 0 {
        Seq::empty()
    } else {
        let before = flattened(items.drop_last(), guild_channels);
        match items.last() {
            GuildOrChannel::Guild(guild) => appended(
                before,
                Some(guild),
                listed(guild_channels, guild),
            ),
            GuildOrChannel::Channel(guild, channel) => appended(before, guild, seq![channel]),
        }
    }
}

/// The channels listed for `guild` in `guild_channels`, copied.
fn channels_of(guild_channels: &Vec<GuildChannels>, guild: u64) -> (channels: Vec<u64>)
    ensures
        channels@ == listed(guild_channels@, guild),
{
    let mut i: usize = 0;
    assert(guild_channels@.skip(0) =~= guild_channels@);
    while i < guild_channels.len()
        invariant
            i <= guild_channels@.len(),
            listed(guild_channels@, guild) == listed(guild_channels@.skip(i as int), guild),
        decreases guild_channels@.len() - i,
    {
        assert(guild_channels@.skip(i as int)[0] == guild_channels@[i as int]);
        if guild_channels[i].guild_id == guild {
            let mut copy: Vec<u64> = Vec::new();
            extend(&mut copy, &guild_channels[i].channels);
            assert(copy@ =~= guild_channels@[i as int].channels@);
            return copy;
        }
        assert(guild_channels@.skip(i as int).drop_first() =~= guild_channels@.skip(i + 1));
        i += 1;
    }
    Vec::new()
}

/// Appends `more` to `out`.
fn extend(out: &mut Vec<u64>, more: &Vec<u64>)
    ensures
        final(out)@ == old(out)@ + more@,
{
    let mut i: usize = 0;
    assert(out@ =~= old(out)@ + more@.take(0));
    while i < more.len()
        invariant
            i <= more@.len(),
            out@ == old(out)@ + more@.take(i as int),
        decreases more@.len() - i,
    {
        out.push(more[i]);
        assert(out@ =~= old(out)@ + more@.take(i + 1));
        i += 1;
    }
    assert(more@.take(i as int) =~= more@);
}

/// Groups the channels that `items` stand for by guild. `guild_channels`
/// holds, for the whole guilds among the items, their channels in the order in
/// which they are to appear.
pub fn flatten_guilds(items: &Vec<GuildOrChannel>, guild_channels: &Vec<GuildChannels>) -> (map:
    ChannelMap)
    ensures
        map_entries(map) == flattened(items@, guild_channels@),
{
    let mut map = new_map();
    let mut k: usize = 0;
    assert(items@.take(0) =~= Seq::<GuildOrChannel>::empty());
    while k < items.len()
        invariant
            k <= items@.len(),
            map_entries(map) == flattened(items@.take(k as int), guild_channels@),
        decreases items@.len() - k,
    {
        assert(items@.take(k + 1).drop_last() =~= items@.take(k as int));
        assert(items@.take(k + 1).last() == items@[k as int]);
        let ghost before = map_entries(map);
        let (key, values) = match items[k] {
            GuildOrChannel::Guild(guild) => (Some(guild), channels_of(guild_channels, guild)),
            GuildOrChannel::Channel(guild, channel) => {
                let mut one: Vec<u64> = Vec::new();
                one.push(channel);
                assert(one@ =~= seq![channel]);
                (guild, one)
            },
        };
        match index_of(&map, key) {
            Some(i) => {
                let mut all: Vec<u64> = Vec::new();
                match value_at(&map, i) {
                    Some(held) => {
                        extend(&mut all, held);
                    },
                    None => {
                        proof {
                            lemma_key_index(before, key);
                        }
                    },
                }
                extend(&mut all, &values);
                assert(all@ =~= before[i as int].1 + values@);
                insert(&mut map, key, all);
            },
            None => {
                insert(&mut map, key, values);
            },
        }
        k += 1;
    }
    assert(items@.take(k as int) =~= items@);
    map
}

} // verus!
