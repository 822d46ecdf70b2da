//! The records that the queries hand out.

use vstd::prelude::*;
use crate::bytes::Bytes32;
use crate::peers::IpAddress;

verus! {

/// The texts of a list of strings.
pub open spec fn texts(strings: Seq<String>) -> Seq<Seq<char>> {
    Seq::new(strings.len(), |i: int| strings[i]@)
}

/// How far the wallet is synced, and what it holds.
#[derive(Debug, Clone)]
pub struct SyncInfo {
    pub address: String,
    pub balance: u128,
    pub ticker: String,
    pub total_coins: usize,
    pub synced_coins: usize,
}

/// What a `SyncInfo` says.
pub struct SyncInfoView {
    pub address: Seq<char>,
    pub balance: nat,
    pub ticker: Seq<char>,
    pub total_coins: nat,
    pub synced_coins: nat,
}

impl View for SyncInfo {
    type V = SyncInfoView;

    open spec fn view(&self) -> SyncInfoView {
        SyncInfoView {
            address: self.address@,
            balance: self.balance as nat,
            ticker: self.ticker@,
            total_coins: self.total_coins as nat,
            synced_coins: self.synced_coins as nat,
        }
    }
}

/// One coin of the wallet, with the address of its owner.
#[derive(Debug, Clone)]
pub struct CoinData {
    pub coin_id: Bytes32,
    pub address: String,
    pub created_height: Option<u32>,
    pub spent_height: Option<u32>,
    pub amount: u128,
}

/// What a `CoinData` says.
pub struct CoinDataView {
    pub coin_id: Bytes32,
    pub address: Seq<char>,
    pub created_height: Option<u32>,
    pub spent_height: Option<u32>,
    pub amount: nat,
}

impl View for CoinData {
    type V = CoinDataView;

    open spec fn view(&self) -> CoinDataView {
        CoinDataView {
            coin_id: self.coin_id,
            address: self.address@,
            created_height: self.created_height,
            spent_height: self.spent_height,
            amount: self.amount as nat,
        }
    }
}

/// What a `LauncherData` says.
pub struct LauncherDataView {
    pub encoded_id: Seq<char>,
    pub launcher_id: Bytes32,
    pub address: Seq<char>,
}

/// An identity or a token holder of the wallet: its launcher, as bytes
/// and as text, and the address of its owner.
#[derive(Debug, Clone)]
pub struct LauncherData {
    pub encoded_id: String,
    pub launcher_id: Bytes32,
    pub address: String,
}

/// An identity of the wallet.
pub type DidData = LauncherData;

/// A token holder of the wallet.
pub type NftData = LauncherData;

impl View for LauncherData {
    type V = LauncherDataView;

    open spec fn view(&self) -> LauncherDataView {
        LauncherDataView {
            encoded_id: self.encoded_id@,
            launcher_id: self.launcher_id,
            address: self.address@,
        }
    }
}

/// An active peer as the peer list shows it.
#[derive(Debug, Clone, Copy, PartialEq, Eq, Structural)]
pub struct PeerInfo {
    pub ip_addr: IpAddress,
    pub port: u16,
    pub trusted: bool,
}

/// A network as the network list shows it: its hashes in hexadecimal.
#[derive(Debug, Clone)]
pub struct NetworkInfo {
    pub default_port: u16,
    pub genesis_challenge: String,
    pub agg_sig_me: Option<String>,
    pub dns_introducers: Vec<String>,
}

/// What a `NetworkInfo` says.
pub struct NetworkInfoView {
    pub default_port: u16,
    pub genesis_challenge: Seq<char>,
    pub agg_sig_me: Option<Seq<char>>,
    pub dns_introducers: Seq<Seq<char>>,
}

impl View for NetworkInfo {
    type V = NetworkInfoView;

    open spec fn view(&self) -> NetworkInfoView {
        NetworkInfoView {
            default_port: self.default_port,
            genesis_challenge: self.genesis_challenge@,
            agg_sig_me: match self.agg_sig_me {
                Some(text) => Some(text@),
                None => None,
            },
            dns_introducers: texts(self.dns_introducers@),
        }
    }
}

} // verus!
