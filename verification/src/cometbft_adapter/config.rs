//! Configuration of the application.

use crate::cometbft_adapter::error::{AppError, AppErrorModel};
use crate::text::{clone_option, clone_texts, fault_text, numeral_fault, option_text, parse_u32,
    parse_unsigned, str_eq, texts};
use vstd::prelude::*;

verus! {

/// How the engine connects.
#[derive(Debug, Clone, Copy, PartialEq, Eq, Structural)]
pub enum CometBftTransport {
    /// Over a Unix domain socket.
    Unix,
    /// Over TCP.
    Tcp,
}

/// Configuration of the application.
#[derive(Debug)]
pub struct CometBftConfig {
    /// Address to listen on (socket path or TCP address).
    pub listen_addr: String,
    /// How the engine connects.
    pub transport: CometBftTransport,
    /// Where the state is persisted.
    pub state_path: String,
    /// Network whose transactions are accepted.
    pub network_id: String,
    /// Most transactions of a block.
    pub max_tx_per_block: u32,
    /// Socket of the kernel bridge, if it is asked.
    pub kfe_socket_path: Option<String>,
    /// Keys whose transactions are accepted; all if there is none.
    pub authorized_keys: Vec<String>,
}

/// A configuration with its texts as sequences of characters.
pub struct ConfigModel {
    pub listen_addr: Seq<char>,
    pub transport: CometBftTransport,
    pub state_path: Seq<char>,
    pub network_id: Seq<char>,
    pub max_tx_per_block: u32,
    pub kfe_socket_path: Option<Seq<char>>,
    pub authorized_keys: Seq<Seq<char>>,
}

impl View for CometBftConfig {
    type V = ConfigModel;

    open spec fn view(&self) -> ConfigModel {
        ConfigModel {
            listen_addr: self.listen_addr@,
            transport: self.transport,
            state_path: self.state_path@,
            network_id: self.network_id@,
            max_tx_per_block: self.max_tx_per_block,
            kfe_socket_path: option_text(self.kfe_socket_path),
            authorized_keys: texts(self.authorized_keys@),
        }
    }
}

impl Clone for CometBftConfig {
    fn clone(&self) -> (r: Self)
        ensures
            r@ == self@,
    {
        CometBftConfig {
            listen_addr: self.listen_addr.clone(),
            transport: self.transport,
            state_path: self.state_path.clone(),
            network_id: self.network_id.clone(),
            max_tx_per_block: self.max_tx_per_block,
            kfe_socket_path: clone_option(&self.kfe_socket_path),
            authorized_keys: clone_texts(&self.authorized_keys),
        }
    }
}

/// What the environment says: each variable as far as it is set.
#[derive(Debug)]
pub struct AdapterEnv {
    /// `KEROSENE_ABCI_LISTEN_ADDR`
    pub listen_addr: Option<String>,
    /// `KEROSENE_ABCI_TRANSPORT`
    pub transport: Option<String>,
    /// `KEROSENE_ABCI_STATE_PATH`
    pub state_path: Option<String>,
    /// `KEROSENE_NETWORK_ID`
    pub network_id: Option<String>,
    /// `KEROSENE_ABCI_MAX_TX_PER_BLOCK`
    pub max_tx_per_block: Option<String>,
}

/// The environment with its texts as sequences of characters.
pub struct EnvModel {
    pub listen_addr: Option<Seq<char>>,
    pub transport: Option<Seq<char>>,
    pub state_path: Option<Seq<char>>,
    pub network_id: Option<Seq<char>>,
    pub max_tx_per_block: Option<Seq<char>>,
}

impl View for AdapterEnv {
    type V = EnvModel;

    open spec fn view(&self) -> EnvModel {
        EnvModel {
            listen_addr: option_text(self.listen_addr),
            transport: option_text(self.transport),
            state_path: option_text(self.state_path),
            network_id: option_text(self.network_id),
            max_tx_per_block: option_text(self.max_tx_per_block),
        }
    }
}

/// A text, or what stands for it where it is not set.
pub open spec fn text_or(v: Option<Seq<char>>, default: Seq<char>) -> Seq<char> {
    match v {
        Some(s) => s,
        None => default,
    }
}

/// The transport that the environment asks for.
pub open spec fn transport_of(v: Option<Seq<char>>) -> Result<CometBftTransport, AppErrorModel> {
    let name = text_or(v, "unix"@);
    if name == "unix"@ {
        Ok(CometBftTransport::Unix)
    } else if name == "tcp"@ {
        Ok(CometBftTransport::Tcp)
    } else {
        Err(
            AppErrorModel::Config(
                "unknown KEROSENE_ABCI_TRANSPORT="@ + name + "; expected \'unix\' or \'tcp\'"@,
            ),
        )
    }
}

/// The number of transactions that the environment asks for.
pub open spec fn max_tx_of(v: Option<Seq<char>>) -> Result<u32, AppErrorModel> {
    match v {
        None => Ok(1000),
        Some(s) => match parse_unsigned(s, u32::MAX as nat) {
            Some(n) => Ok(n as u32),
            None => Err(
                AppErrorModel::Config(
                    "invalid KEROSENE_ABCI_MAX_TX_PER_BLOCK: "@ + fault_text(
                        numeral_fault(s, u32::MAX as nat),
                    ),
                ),
            ),
        },
    }
}

/// The configuration that the environment gives. The network is required;
/// everything else has a default.
pub open spec fn configured(env: EnvModel) -> Result<ConfigModel, AppErrorModel> {
    match transport_of(env.transport) {
        Err(e) => Err(e),
        Ok(transport) => match env.network_id {
            None => Err(AppErrorModel::Config("KEROSENE_NETWORK_ID is required"@)),
            Some(network_id) => match max_tx_of(env.max_tx_per_block) {
                Err(e) => Err(e),
                Ok(max_tx_per_block) => Ok(
                    ConfigModel {
                        listen_addr: text_or(env.listen_addr, "/tmp/kerosene-abci.sock"@),
                        transport,
                        state_path: text_or(env.state_path, "data/abci-state"@),
                        network_id,
                        max_tx_per_block,
                        kfe_socket_path: None,
                        authorized_keys: Seq::empty(),
                    },
                ),
            },
        },
    }
}

/// A text, or what stands for it where it is not set.
fn or_default(v: Option<String>, default: &str) -> (r: String)
    ensures
        r@ == text_or(option_text(v), default@),
{
    match v {
        Some(s) => s,
        None => default.to_owned(),
    }
}

/// Reads the transport.
fn read_transport(v: Option<String>) -> (r: Result<CometBftTransport, AppError>)
    ensures
        match r {
            Ok(t) => transport_of(option_text(v)) == Ok::<CometBftTransport, AppErrorModel>(t),
            Err(e) => transport_of(option_text(v)) == Err::<CometBftTransport, AppErrorModel>(e@),
        },
{
    let name = or_default(v, "unix");
    if str_eq(name.as_str(), "unix") {
        return Ok(CometBftTransport::Unix);
    }
    if str_eq(name.as_str(), "tcp") {
        return Ok(CometBftTransport::Tcp);
    }
    let mut m = "unknown KEROSENE_ABCI_TRANSPORT=".to_owned();
    m.append(name.as_str());
    m.append("; expected 'unix' or 'tcp'");
    Err(AppError::Config(m))
}

/// Reads the number of transactions.
fn read_max_tx(v: Option<String>) -> (r: Result<u32, AppError>)
    ensures
        match r {
            Ok(n) => max_tx_of(option_text(v)) == Ok::<u32, AppErrorModel>(n),
            Err(e) => max_tx_of(option_text(v)) == Err::<u32, AppErrorModel>(e@),
        },
{
    match v {
        None => Ok(1000),
        Some(s) => match parse_u32(s.as_str()) {
            Ok(n) => Ok(n),
            Err(fault) => {
                let mut m = "invalid KEROSENE_ABCI_MAX_TX_PER_BLOCK: ".to_owned();
                m.append(fault.describe().as_str());
                Err(AppError::Config(m))
            },
        },
    }
}

impl CometBftConfig {
    /// The configuration that the environment gives.
    ///
    /// - `KEROSENE_ABCI_LISTEN_ADDR`: listen address (default
    ///   `/tmp/kerosene-abci.sock`)
    /// - `KEROSENE_ABCI_TRANSPORT`: `unix` or `tcp` (default `unix`)
    /// - `KEROSENE_ABCI_STATE_PATH`: where the state is persisted (default
    ///   `data/abci-state`)
    /// - `KEROSENE_NETWORK_ID`: network (required)
    /// - `KEROSENE_ABCI_MAX_TX_PER_BLOCK`: most transactions of a block
    ///   (default `1000`)
    pub fn from_env(env: AdapterEnv) -> (r: Result<Self, AppError>)
        ensures
            match r {
                Ok(c) => configured(env@) == Ok::<ConfigModel, AppErrorModel>(c@),
                Err(e) => configured(env@) == Err::<ConfigModel, AppErrorModel>(e@),
            },
    {
        let listen_addr = or_default(env.listen_addr, "/tmp/kerosene-abci.sock");
        let transport = match read_transport(env.transport) {
            Ok(t) => t,
            Err(e) => {
                return Err(e);
            },
        };
        let state_path = or_default(env.state_path, "data/abci-state");
        let network_id = match env.network_id {
            Some(s) => s,
            None => {
                return Err(AppError::Config("KEROSENE_NETWORK_ID is required".to_owned()));
            },
        };
        let max_tx_per_block: u32 = match read_max_tx(env.max_tx_per_block) {
            Ok(n) => n,
            Err(e) => {
                return Err(e);
            },
        };
        let r = CometBftConfig {
            listen_addr,
            transport,
            state_path,
            network_id,
            max_tx_per_block,
            kfe_socket_path: None,
            authorized_keys: Vec::new(),
        };
        assert(r@.authorized_keys =~= Seq::<Seq<char>>::empty());
        Ok(r)
    }
}

/// What the environment configures: it is accepted exactly when it names a
/// network, the transport, where it is given, is one of the two and the bound on
/// transactions, where it is given, is a number; what is not given takes its
/// default.
pub proof fn lemma_configuration_is_exact(env: EnvModel)
    ensures
        ({
            let r = configured(env);
            &&& r is Ok <==> {
                &&& env.network_id is Some
                &&& env.transport is None || env.transport->0 == "unix"@ || env.transport->0
                    == "tcp"@
                &&& env.max_tx_per_block is None || parse_unsigned(
                    env.max_tx_per_block->0,
                    u32::MAX as nat,
                ) is Some
            }
            &&& r is Err ==> r->Err_0 is Config
            &&& r is Ok ==> {
                let c = r->Ok_0;
                &&& c.network_id == env.network_id->0
                &&& c.listen_addr == (if env.listen_addr is Some {
                    env.listen_addr->0
                } else {
                    "/tmp/kerosene-abci.sock"@
                })
                &&& c.state_path == (if env.state_path is Some {
                    env.state_path->0
                } else {
                    "data/abci-state"@
                })
                &&& env.transport is None || env.transport->0 == "unix"@ ==> c.transport is Unix
                &&& env.transport is Some && env.transport->0 != "unix"@ ==> c.transport is Tcp
                &&& env.max_tx_per_block is None ==> c.max_tx_per_block == 1000
                &&& env.max_tx_per_block is Some ==> c.max_tx_per_block == parse_unsigned(
                    env.max_tx_per_block->0,
                    u32::MAX as nat,
                )->0
                &&& c.kfe_socket_path is None
                &&& c.authorized_keys.len() == 0
            }
        }),
{
}

} // verus!
