//! The state that every command works on: the configuration, the known
//! networks, the selected wallet and the peers.

use vstd::prelude::*;
use crate::bytes::Bytes32;
use crate::error::Error;
use crate::models::texts;
use crate::peers::PeerRegistry;
use crate::store::CoinStateStore;

verus! {

/// The parameters of a network.
#[derive(Debug, Clone)]
pub struct Network {
    pub default_port: u16,
    pub genesis_challenge: Bytes32,
    pub agg_sig_me: Option<Bytes32>,
    pub dns_introducers: Vec<String>,
}

/// A network under its identifier.
#[derive(Debug, Clone)]
pub struct NetworkEntry {
    pub network_id: String,
    pub network: Network,
}

/// Which network the wallet talks to, and how.
#[derive(Debug, Clone)]
pub struct NetworkConfig {
    pub network_id: String,
    pub target_peers: u32,
    pub discover_peers: bool,
}

/// What a `NetworkConfig` says.
pub struct NetworkConfigView {
    pub network_id: Seq<char>,
    pub target_peers: u32,
    pub discover_peers: bool,
}

impl View for NetworkConfig {
    type V = NetworkConfigView;

    open spec fn view(&self) -> NetworkConfigView {
        NetworkConfigView {
            network_id: self.network_id@,
            target_peers: self.target_peers,
            discover_peers: self.discover_peers,
        }
    }
}

impl NetworkConfig {
    /// A copy of this configuration.
    pub fn duplicate(&self) -> (copy: NetworkConfig)
        ensures
            copy@ == self@,
    {
        NetworkConfig {
            network_id: self.network_id.clone(),
            target_peers: self.target_peers,
            discover_peers: self.discover_peers,
        }
    }
}

/// The settings of one wallet.
#[derive(Debug, Clone)]
pub struct WalletConfig {
    pub name: String,
    pub derive_automatically: bool,
    pub derivation_batch_size: u32,
}

/// What a `WalletConfig` says.
pub struct WalletConfigView {
    pub name: Seq<char>,
    pub derive_automatically: bool,
    pub derivation_batch_size: u32,
}

impl View for WalletConfig {
    type V = WalletConfigView;

    open spec fn view(&self) -> WalletConfigView {
        WalletConfigView {
            name: self.name@,
            derive_automatically: self.derive_automatically,
            derivation_batch_size: self.derivation_batch_size,
        }
    }
}

impl WalletConfig {
    /// A copy of these settings.
    pub fn duplicate(&self) -> (copy: WalletConfig)
        ensures
            copy@ == self@,
    {
        WalletConfig {
            name: self.name.clone(),
            derive_automatically: self.derive_automatically,
            derivation_batch_size: self.derivation_batch_size,
        }
    }
}

/// The settings of the wallet with a given fingerprint.
#[derive(Debug, Clone)]
pub struct WalletEntry {
    pub fingerprint: u32,
    pub config: WalletConfig,
}

/// The configuration: the network, and the settings of each wallet.
#[derive(Debug, Clone)]
pub struct Config {
    pub network: NetworkConfig,
    pub wallets: Vec<WalletEntry>,
}

/// The first place in `wallets` that holds `fingerprint`.
pub open spec fn wallet_position(wallets: Seq<WalletEntry>, fingerprint: u32) -> Option<int>
    decreases wallets.len(),
{
    if wallets.len() == 0 {
        None
    } else {
        match wallet_position(wallets.drop_last(), fingerprint) {
            Some(i) => Some(i),
            None => if wallets.last().fingerprint == fingerprint {
                Some(wallets.len() - 1)
            } else {
                None
            },
        }
    }
}

impl Config {
    /// The place of the settings of the wallet with `fingerprint`.
    pub fn find_wallet(&self, fingerprint: u32) -> (found: Option<usize>)
        ensures
            found matches Some(i) ==> wallet_position(self.wallets@, fingerprint) == Some(
                i as int,
            ) && i < self.wallets@.len() && self.wallets@[i as int].fingerprint == fingerprint,
            found is None ==> wallet_position(self.wallets@, fingerprint) is None,
    {
        let mut i: usize = 0;
        while i < self.wallets.len()
            invariant
                i <= self.wallets.len(),
                wallet_position(self.wallets@.take(i as int), fingerprint) is None,
            decreases self.wallets.len() - i,
        {
            assert(self.wallets@.take(i + 1).drop_last() == self.wallets@.take(i as int));
            if self.wallets[i].fingerprint == fingerprint {
                proof {
                    lemma_position_in_prefix(self.wallets@, fingerprint, i + 1);
                }
                return Some(i);
            }
            i += 1;
        }
        assert(self.wallets@.take(self.wallets@.len() as int) == self.wallets@);
        None
    }
}

/// A fingerprint found in a prefix is found at the same place in the whole.
pub proof fn lemma_position_in_prefix(wallets: Seq<WalletEntry>, fingerprint: u32, n: int)
    requires
        0 <= n <= wallets.len(),
        wallet_position(wallets.take(n), fingerprint) is Some,
    ensures
        wallet_position(wallets, fingerprint) == wallet_position(wallets.take(n), fingerprint),
    decreases wallets.len() - n,
{
    if n < wallets.len() {
        assert(wallets.take(n + 1).drop_last() == wallets.take(n));
        lemma_position_in_prefix(wallets, fingerprint, n + 1);
    } else {
        assert(wallets.take(n) == wallets);
    }
}

/// The selected wallet.
pub struct Wallet {
    pub db: CoinStateStore,
}

/// Everything a command works on.
pub struct AppState {
    pub config: Config,
    pub networks: Vec<NetworkEntry>,
    pub wallet: Option<Wallet>,
    pub peer_state: PeerRegistry,
    /// The address prefix of the configured network.
    pub prefix: String,
}

impl AppState {
    /// The invariants of the parts: of the selected wallet's store, and of
    /// the peer registry.
    pub open spec fn wf(&self) -> bool {
        &&& self.peer_state.wf()
        &&& self.wallet matches Some(wallet) ==> wallet.db.wf()
    }

    /// A state with no wallet selected and no peers.
    pub fn new(config: Config, networks: Vec<NetworkEntry>, prefix: String) -> (state: AppState)
        ensures
            state.wf(),
            state.config == config,
            state.networks == networks,
            state.wallet is None,
            state.prefix == prefix,
            state.peer_state@.slots.len() == 0,
            state.peer_state@.banned.len() == 0,
    {
        AppState { config, networks, wallet: None, peer_state: PeerRegistry::new(), prefix }
    }

    /// The selected wallet, or `NoActiveWallet`.
    pub fn active_wallet(&self) -> (wallet: Result<&Wallet, Error>)
        ensures
            match self.wallet {
                Some(selected) => wallet matches Ok(found) && *found == selected,
                None => wallet matches Err(error) && error == Error::NoActiveWallet,
            },
    {
        match &self.wallet {
            Some(wallet) => Ok(wallet),
            None => Err(Error::NoActiveWallet),
        }
    }
}

/// What the caller is to do after a setting was changed, in this order:
/// save the configuration, restart the sync task, switch the wallet. It
/// stops at the first step that fails.
#[derive(Debug, Clone, Copy, PartialEq, Eq, Structural)]
pub struct Effects {
    pub save_config: bool,
    /// Whether to restart the sync task, and if so, whether to forget the
    /// peers as well.
    pub reset_sync: Option<bool>,
    pub switch_wallet: bool,
}

impl Effects {
    /// Nothing to do.
    pub open spec fn none() -> Effects {
        Effects { save_config: false, reset_sync: None, switch_wallet: false }
    }
}

} // verus!
