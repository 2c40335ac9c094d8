use vstd::prelude::*;

verus! {

/// Key-to-class bindings: which key selects which collateral class.
/// Keys are unique; the first binding for a key wins.
#[derive(Clone, Debug, PartialEq, Eq)]
pub struct IlkConfig {
    /// The bindings, in configuration order.
    pub key_mappings: Vec<(char, String)>,
}

/// Where and how often to poll.
#[derive(Clone, Debug, PartialEq, Eq)]
pub struct RpcConfig {
    /// The node endpoint.
    pub arb_rpc_url: String,
    /// Seconds between polling cycles.
    pub refresh_seconds: u64,
}

/// Which wallet and which collateral classes to monitor.
#[derive(Clone, Debug, PartialEq, Eq)]
pub struct UrnsConfig {
    /// The monitored wallet address, as configured.
    pub user_address: String,
    /// A display name for the wallet.
    pub user_nickname: Option<String>,
    /// The monitored collateral classes, one vault each.
    pub ilks: Vec<String>,
}

/// The protocol's contract addresses, as configured.
#[derive(Clone, Debug, PartialEq, Eq)]
pub struct Rico {
    /// The core contract.
    pub diamond: String,
    /// The price feed store.
    pub feedbase: String,
    /// The position manager.
    pub npfm: String,
    /// The position decomposition helper.
    pub uniwrapper: String,
    /// The reference-price feed source.
    pub chain_link_feed: String,
}

/// Everything the program is configured with, read once at startup and
/// treated as immutable afterwards.
#[derive(Clone, Debug, PartialEq, Eq)]
pub struct TermConfig {
    /// Where and how often to poll.
    pub rpc: RpcConfig,
    /// Which wallet and classes to monitor.
    pub urns: UrnsConfig,
    /// The protocol's contract addresses.
    pub rico: Rico,
    /// Key-to-class bindings.
    pub ilks: IlkConfig,
}

} // verus!
