use vstd::prelude::*;
use vstd::string::StringExecFns;

verus! {

/// Runtime configuration, as read from a configuration file by the caller.
#[derive(Debug, Clone, PartialEq, Eq)]
pub struct Config {
    pub cluster: String,
    pub wait_time: u64,
    pub tx_limit: u64,
    pub output_file_path: String,
}

/// The two positional inputs of a run.
#[derive(Debug, Clone, PartialEq, Eq)]
pub struct Args {
    pub parse: String,
    pub id: String,
}

/// Which cluster's explorer pages to read.
#[derive(Debug, Clone, Copy, PartialEq, Eq, Structural)]
pub enum Cluster {
    Devnet,
    Mainnet,
    Testnet,
}

/// What to read: an account page or a transaction page.
#[derive(Debug, Clone, Copy, PartialEq, Eq, Structural)]
pub enum Command {
    Account,
    Transaction,
}

pub open spec fn spec_route(command: Command) -> Seq<char> {
    match command {
        Command::Account => "address"@,
        Command::Transaction => "tx"@,
    }
}

pub open spec fn spec_cluster_suffix(cluster: Cluster) -> Seq<char> {
    match cluster {
        Cluster::Mainnet => Seq::empty(),
        Cluster::Devnet => "?cluster=devnet"@,
        Cluster::Testnet => "?cluster=mainnet-beta"@,
    }
}

/// The page URL for an id: origin, route, id, then the cluster suffix.
pub open spec fn spec_construct_url(cluster: Cluster, command: Command, id: Seq<char>) -> Seq<
    char,
> {
    "https://explorer.solana.com/"@ + spec_route(command) + "/"@ + id + spec_cluster_suffix(
        cluster,
    )
}

pub fn construct_url(cluster: &Cluster, command: &Command, id: &str) -> (r: String)
    ensures
        r@ == spec_construct_url(*cluster, *command, id@),
{
    let mut r = "https://explorer.solana.com/".to_owned();
    match command {
        Command::Account => r.append("address"),
        Command::Transaction => r.append("tx"),
    }
    r.append("/");
    r.append(id);
    match cluster {
        Cluster::Mainnet => {
            proof {
                assert(r@ + Seq::<char>::empty() =~= r@);
            }
        },
        Cluster::Devnet => r.append("?cluster=devnet"),
        Cluster::Testnet => r.append("?cluster=mainnet-beta"),
    }
    r
}

} // verus!
