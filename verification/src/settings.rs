//! The commands on peers, networks and settings. A command that changes a
//! setting says what the caller is to do about it afterwards.

use vstd::prelude::*;
use indexmap::IndexMap;
use crate::app_state::{
    wallet_position, AppState, Effects, Network, NetworkConfig, NetworkEntry, WalletConfig,
    WalletConfigView, WalletEntry,
};
use crate::bytes::Bytes32;
use crate::error::Error;
use crate::models::{texts, NetworkInfo, NetworkInfoView, PeerInfo};
use crate::peers::{IpAddress, Peer};

verus! {

/// `indexmap::IndexMap`, the map that keeps its keys in insertion order.
/// Nothing inside it is visible; what it holds is named by
/// `network_entries`.
#[verifier::external_type_specification]
#[verifier::external_body]
#[verifier::reject_recursive_types(K)]
#[verifier::reject_recursive_types(V)]
#[verifier::reject_recursive_types(S)]
pub struct ExIndexMap<K, V, S>(IndexMap<K, V, S>);

/// The digit for a value from 0 to 15.
pub open spec fn hex_digit(value: int) -> char {
    seq!['0', '1', '2', '3', '4', '5', '6', '7', '8', '9', 'a', 'b', 'c', 'd', 'e', 'f'][value]
}

/// Bytes in lower-case hexadecimal: two digits for each byte, the high
/// half first.
pub open spec fn hex_text(bytes: Seq<u8>) -> Seq<char> {
    Seq::new(
        2 * bytes.len(),
        |i: int|
            if i % 2 == 0 {
                hex_digit(bytes[i / 2] as int / 16)
            } else {
                hex_digit(bytes[i / 2] as int % 16)
            },
    )
}

/// Calls `hex::encode` on the 32 bytes. As documented there, the result
/// is the lower-case hexadecimal text of the bytes, two digits each.
#[verifier::external_body]
fn hex_encode(bytes: &Bytes32) -> (text: String)
    ensures
        text@ == hex_text(bytes@),
{
    hex::encode(bytes.data)
}

/// The entries of a map of networks, in the map's order: each key with
/// its value.
pub uninterp spec fn network_entries(map: IndexMap<String, NetworkInfo>) -> Seq<
    (Seq<char>, NetworkInfoView),
>;

/// Where in `entries` the key `key` stands.
pub open spec fn key_position(entries: Seq<(Seq<char>, NetworkInfoView)>, key: Seq<char>) -> Option<
    int,
> {
    if exists|i: int| 0 <= i < entries.len() && entries[i].0 == key {
        Some(choose|i: int| 0 <= i < entries.len() && entries[i].0 == key)
    } else {
        None
    }
}

/// The entries after `key` was inserted with `value`: a key that is
/// there keeps its place and takes the value, a new key comes last.
pub open spec fn inserted(
    entries: Seq<(Seq<char>, NetworkInfoView)>,
    key: Seq<char>,
    value: NetworkInfoView,
) -> Seq<(Seq<char>, NetworkInfoView)> {
    match key_position(entries, key) {
        Some(i) => entries.update(i, (key, value)),
        None => entries.push((key, value)),
    }
}

/// Calls `IndexMap::new`: the map it gives has no entries.
#[verifier::external_body]
fn new_network_map() -> (map: IndexMap<String, NetworkInfo>)
    ensures
        network_entries(map) == Seq::<(Seq<char>, NetworkInfoView)>::empty(),
{
    IndexMap::new()
}

/// Calls `IndexMap::insert` and drops what it returns. As documented
/// there, a key that is in the map keeps its place and takes the new
/// value, and a new key is put last.
#[verifier::external_body]
fn insert_network(map: &mut IndexMap<String, NetworkInfo>, key: String, value: NetworkInfo)
    ensures
        network_entries(*final(map)) == inserted(network_entries(*old(map)), key@, value@),
{
    map.insert(key, value);
}

/// The peers that a peer list shows.
pub open spec fn peers_shown(list: Seq<PeerInfo>) -> Seq<Peer> {
    Seq::new(list.len(), |i: int| Peer { ip: list[i].ip_addr, port: list[i].port })
}

/// The active peers in ascending order of address, none of them trusted.
pub fn peer_list(state: &AppState) -> (list: Result<Vec<PeerInfo>, Error>)
    requires
        state.wf(),
    ensures
        list matches Ok(found) && state.peer_state@.is_listing(peers_shown(found@))
            && found@.len() == state.peer_state@.slots.len() && forall|i: int|
            0 <= i < found@.len() ==> !(#[trigger] found@[i]).trusted,
{
    let peers = state.peer_state.list();
    let mut list: Vec<PeerInfo> = Vec::new();
    let mut i: usize = 0;
    while i < peers.len()
        invariant
            i <= peers.len(),
            list@.len() == i,
            forall|k: int|
                0 <= k < i ==> (#[trigger] list@[k]) == (PeerInfo {
                    ip_addr: peers@[k].ip,
                    port: peers@[k].port,
                    trusted: false,
                }),
        decreases peers.len() - i,
    {
        list.push(PeerInfo { ip_addr: peers[i].ip, port: peers[i].port, trusted: false });
        i += 1;
    }
    assert(peers_shown(list@) =~= peers@);
    Ok(list)
}

/// Takes the peer at `ip_addr` out of the active set, and bans the
/// address as well if `ban` is set.
pub fn remove_peer(state: &mut AppState, ip_addr: IpAddress, ban: bool) -> (done: Result<(), Error>)
    requires
        old(state).wf(),
    ensures
        final(state).wf(),
        done is Ok,
        final(state).peer_state@ == if ban {
            old(state).peer_state@.ban(ip_addr)
        } else {
            old(state).peer_state@.remove(ip_addr)
        },
        !final(state).peer_state@.is_active(ip_addr),
        final(state).config == old(state).config,
        final(state).networks == old(state).networks,
        final(state).wallet == old(state).wallet,
        final(state).prefix == old(state).prefix,
{
    if ban {
        state.peer_state.ban(ip_addr);
    } else {
        state.peer_state.remove(ip_addr);
    }
    Ok(())
}

/// What the network list shows of a network.
pub open spec fn info_of(network: Network) -> NetworkInfoView {
    NetworkInfoView {
        default_port: network.default_port,
        genesis_challenge: hex_text(network.genesis_challenge@),
        agg_sig_me: match network.agg_sig_me {
            Some(hash) => Some(hex_text(hash@)),
            None => None,
        },
        dns_introducers: texts(network.dns_introducers@),
    }
}

/// The entries of the network list for `networks`: each inserted in turn
/// under its identifier.
pub open spec fn listed_networks(networks: Seq<NetworkEntry>) -> Seq<(Seq<char>, NetworkInfoView)>
    decreases networks.len(),
{
    if networks.len() == 0 {
        Seq::<(Seq<char>, NetworkInfoView)>::empty()
    } else {
        inserted(
            listed_networks(networks.drop_last()),
            networks.last().network_id@,
            info_of(networks.last().network),
        )
    }
}

/// What the network list shows of a network.
pub fn network_info(network: &Network) -> (info: NetworkInfo)
    ensures
        info@ == info_of(*network),
{
    let mut dns_introducers: Vec<String> = Vec::new();
    let mut i: usize = 0;
    while i < network.dns_introducers.len()
        invariant
            i <= network.dns_introducers.len(),
            dns_introducers@.len() == i,
            forall|k: int| 0 <= k < i ==> dns_introducers@[k] == network.dns_introducers@[k],
        decreases network.dns_introducers.len() - i,
    {
        dns_introducers.push(network.dns_introducers[i].clone());
        i += 1;
    }
    assert(texts(dns_introducers@) =~= texts(network.dns_introducers@));
    NetworkInfo {
        default_port: network.default_port,
        genesis_challenge: hex_encode(&network.genesis_challenge),
        agg_sig_me: match &network.agg_sig_me {
            Some(hash) => Some(hex_encode(hash)),
            None => None,
        },
        dns_introducers,
    }
}

/// The known networks under their identifiers, in the order they are
/// known, with their hashes in hexadecimal.
pub fn network_list(state: &AppState) -> (list: Result<IndexMap<String, NetworkInfo>, Error>)
    ensures
        list matches Ok(map) && network_entries(map) == listed_networks(state.networks@),
{
    let mut networks = new_network_map();
    let mut i: usize = 0;
    assert(state.networks@.take(0).len() == 0);
    while i < state.networks.len()
        invariant
            i <= state.networks.len(),
            network_entries(networks) == listed_networks(state.networks@.take(i as int)),
        decreases state.networks.len() - i,
    {
        assert(state.networks@.take(i + 1).drop_last() == state.networks@.take(i as int));
        let info = network_info(&state.networks[i].network);
        insert_network(&mut networks, state.networks[i].network_id.clone(), info);
        i += 1;
    }
    assert(state.networks@.take(state.networks@.len() as int) == state.networks@);
    Ok(networks)
}

/// The network configuration.
pub fn network_config(state: &AppState) -> (config: Result<NetworkConfig, Error>)
    ensures
        config matches Ok(found) && found@ == state.config.network@,
{
    Ok(state.config.network.duplicate())
}

/// Turns peer discovery on or off. If that changes the setting, the
/// configuration is to be saved and the sync task restarted.
pub fn set_discover_peers(state: &mut AppState, discover_peers: bool) -> (pending: Result<
    Effects,
    Error,
>)
    ensures
        *final(state) == (AppState {
            config: crate::app_state::Config {
                network: NetworkConfig { discover_peers, ..old(state).config.network },
                ..old(state).config
            },
            ..*old(state)
        }),
        pending matches Ok(effects) && effects == if old(state).config.network.discover_peers
            != discover_peers {
            Effects { save_config: true, reset_sync: Some(false), switch_wallet: false }
        } else {
            Effects::none()
        },
{
    if state.config.network.discover_peers != discover_peers {
        state.config.network.discover_peers = discover_peers;
        Ok(Effects { save_config: true, reset_sync: Some(false), switch_wallet: false })
    } else {
        Ok(Effects { save_config: false, reset_sync: None, switch_wallet: false })
    }
}

/// Sets how many peers to aim for. The configuration is to be saved and
/// the sync task restarted.
pub fn set_target_peers(state: &mut AppState, target_peers: u32) -> (pending: Result<Effects, Error>)
    ensures
        *final(state) == (AppState {
            config: crate::app_state::Config {
                network: NetworkConfig { target_peers, ..old(state).config.network },
                ..old(state).config
            },
            ..*old(state)
        }),
        pending matches Ok(effects) && effects == (Effects {
            save_config: true,
            reset_sync: Some(false),
            switch_wallet: false,
        }),
{
    state.config.network.target_peers = target_peers;
    Ok(Effects { save_config: true, reset_sync: Some(false), switch_wallet: false })
}

/// Selects the network. The configuration is to be saved, the sync task
/// restarted with its peers forgotten, and the wallet switched.
pub fn set_network_id(state: &mut AppState, network_id: String) -> (pending: Result<Effects, Error>)
    ensures
        *final(state) == (AppState {
            config: crate::app_state::Config {
                network: NetworkConfig { network_id, ..old(state).config.network },
                ..old(state).config
            },
            ..*old(state)
        }),
        pending matches Ok(effects) && effects == (Effects {
            save_config: true,
            reset_sync: Some(true),
            switch_wallet: true,
        }),
{
    state.config.network.network_id = network_id;
    Ok(Effects { save_config: true, reset_sync: Some(true), switch_wallet: true })
}

/// The settings of the wallet with `fingerprint`, or `UnknownFingerprint`.
pub fn wallet_config(state: &AppState, fingerprint: u32) -> (config: Result<WalletConfig, Error>)
    ensures
        match wallet_position(state.config.wallets@, fingerprint) {
            Some(i) => config matches Ok(found) && found@ == state.config.wallets@[i].config@,
            None => config matches Err(error) && error == Error::UnknownFingerprint,
        },
{
    match state.config.find_wallet(fingerprint) {
        Some(i) => Ok(state.config.wallets[i].config.duplicate()),
        None => Err(Error::UnknownFingerprint),
    }
}

/// Whether `after` is `before` with the settings of the wallet at place
/// `i` replaced by `config`, and nothing else changed.
pub open spec fn wallet_config_set(
    before: AppState,
    after: AppState,
    i: int,
    config: WalletConfigView,
) -> bool {
    &&& after.config.network == before.config.network
    &&& after.networks == before.networks
    &&& after.wallet == before.wallet
    &&& after.peer_state == before.peer_state
    &&& after.prefix == before.prefix
    &&& after.config.wallets@.len() == before.config.wallets@.len()
    &&& forall|k: int|
        0 <= k < before.config.wallets@.len() && k != i ==> after.config.wallets@[k]
            == before.config.wallets@[k]
    &&& after.config.wallets@[i].fingerprint == before.config.wallets@[i].fingerprint
    &&& after.config.wallets@[i].config@ == config
}

/// Sets whether the wallet derives addresses by itself. Fails with
/// `UnknownFingerprint` if there is no such wallet. If the setting
/// changes, the configuration is to be saved.
pub fn set_derive_automatically(
    state: &mut AppState,
    fingerprint: u32,
    derive_automatically: bool,
) -> (pending: Result<Effects, Error>)
    ensures
        match wallet_position(old(state).config.wallets@, fingerprint) {
            Some(i) => pending matches Ok(effects) && effects == (if old(
                state,
            ).config.wallets@[i].config.derive_automatically != derive_automatically {
                Effects { save_config: true, reset_sync: None, switch_wallet: false }
            } else {
                Effects::none()
            }) && wallet_config_set(
                *old(state),
                *final(state),
                i,
                WalletConfigView {
                    derive_automatically,
                    ..old(state).config.wallets@[i].config@
                },
            ),
            None => pending matches Err(error) && error == Error::UnknownFingerprint && *final(state)
                == *old(state),
        },
{
    let i = match state.config.find_wallet(fingerprint) {
        Some(i) => i,
        None => {
            return Err(Error::UnknownFingerprint);
        },
    };
    if state.config.wallets[i].config.derive_automatically != derive_automatically {
        let entry = WalletEntry {
            fingerprint,
            config: WalletConfig {
                name: state.config.wallets[i].config.name.clone(),
                derive_automatically,
                derivation_batch_size: state.config.wallets[i].config.derivation_batch_size,
            },
        };
        state.config.wallets.set(i, entry);
        Ok(Effects { save_config: true, reset_sync: None, switch_wallet: false })
    } else {
        Ok(Effects { save_config: false, reset_sync: None, switch_wallet: false })
    }
}

/// Sets how many addresses the wallet derives at a time. Fails with
/// `UnknownFingerprint` if there is no such wallet. The configuration is
/// to be saved and the sync task restarted.
pub fn set_derivation_batch_size(
    state: &mut AppState,
    fingerprint: u32,
    derivation_batch_size: u32,
) -> (pending: Result<Effects, Error>)
    ensures
        match wallet_position(old(state).config.wallets@, fingerprint) {
            Some(i) => pending matches Ok(effects) && effects == (Effects {
                save_config: true,
                reset_sync: Some(false),
                switch_wallet: false,
            }) && wallet_config_set(
                *old(state),
                *final(state),
                i,
                WalletConfigView {
                    derivation_batch_size,
                    ..old(state).config.wallets@[i].config@
                },
            ),
            None => pending matches Err(error) && error == Error::UnknownFingerprint && *final(state)
                == *old(state),
        },
{
    let i = match state.config.find_wallet(fingerprint) {
        Some(i) => i,
        None => {
            return Err(Error::UnknownFingerprint);
        },
    };
    let entry = WalletEntry {
        fingerprint,
        config: WalletConfig {
            name: state.config.wallets[i].config.name.clone(),
            derive_automatically: state.config.wallets[i].config.derive_automatically,
            derivation_batch_size,
        },
    };
    state.config.wallets.set(i, entry);
    Ok(Effects { save_config: true, reset_sync: Some(false), switch_wallet: false })
}

/// Gives the wallet a name. Fails with `UnknownFingerprint` if there is
/// no such wallet. The configuration is to be saved.
pub fn rename_wallet(state: &mut AppState, fingerprint: u32, name: String) -> (pending: Result<
    Effects,
    Error,
>)
    ensures
        match wallet_position(old(state).config.wallets@, fingerprint) {
            Some(i) => pending matches Ok(effects) && effects == (Effects {
                save_config: true,
                reset_sync: None,
                switch_wallet: false,
            }) && wallet_config_set(
                *old(state),
                *final(state),
                i,
                WalletConfigView { name: name@, ..old(state).config.wallets@[i].config@ },
            ),
            None => pending matches Err(error) && error == Error::UnknownFingerprint && *final(state)
                == *old(state),
        },
{
    let i = match state.config.find_wallet(fingerprint) {
        Some(i) => i,
        None => {
            return Err(Error::UnknownFingerprint);
        },
    };
    let entry = WalletEntry {
        fingerprint,
        config: WalletConfig {
            name,
            derive_automatically: state.config.wallets[i].config.derive_automatically,
            derivation_batch_size: state.config.wallets[i].config.derivation_batch_size,
        },
    };
    state.config.wallets.set(i, entry);
    Ok(Effects { save_config: true, reset_sync: None, switch_wallet: false })
}

} // verus!
