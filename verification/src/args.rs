use vstd::prelude::*;
use vstd::string::StringExecFns;
use crate::config::{Cluster, spec_cluster_suffix};

verus! {

/// The command-line surface: the caller's argument parser fills it in.
#[derive(Debug, Clone, PartialEq, Eq)]
pub struct Args {
    pub command: Option<Command>,
    pub id: String,
    pub cluster: String,
    pub output: Option<String>,
}

/// What to read: an account page, with its recent-transaction budget, or a
/// transaction page.
#[derive(Debug, Clone, Copy, PartialEq, Eq, Structural)]
pub enum Command {
    Account { tx_limit: u64 },
    Transaction,
}

pub open spec fn spec_route(command: Command) -> Seq<char> {
    match command {
        Command::Account { .. } => "address"@,
        Command::Transaction => "tx"@,
    }
}

/// The page URL for an id: origin, route, id, then the cluster suffix.
pub open spec fn spec_construct_url(cluster: Cluster, command: Command, id: Seq<char>) -> Seq<
    char,
> {
    "https://explorer.solana.com/"@ + spec_route(command) + "/"@ + id + spec_cluster_suffix(
        cluster,
    )
}

pub fn construct_url(cluster: &Cluster, command: &Command, id: &str) -> (r: String)
    ensures
        r@ == spec_construct_url(*cluster, *command, id@),
{
    let mut r = "https://explorer.solana.com/".to_owned();
    match command {
        Command::Account { .. } => r.append("address"),
        Command::Transaction => r.append("tx"),
    }
    r.append("/");
    r.append(id);
    match cluster {
        Cluster::Mainnet => {
            proof {
                assert(r@ + Seq::<char>::empty() =~= r@);
            }
        },
        Cluster::Devnet => r.append("?cluster=devnet"),
        Cluster::Testnet => r.append("?cluster=mainnet-beta"),
    }
    r
}

} // verus!
