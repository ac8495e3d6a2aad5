//! Type-safe client for a Soroban token contract: the invocation arguments it
//! builds and the data types it exchanges. Running the `starforge` command
//! line is left to the caller.

use vstd::prelude::*;
use crate::text::{push_str, string_views, to_owned_string};

verus! {

/// Failures of a contract call.
#[derive(Debug, Clone, PartialEq, Eq)]
pub enum ClientError {
    Execution(String),
    Serialization(String),
    Deserialization(String),
}

/// The text of a client error.
pub open spec fn client_error_text(e: ClientError) -> Seq<char> {
    match e {
        ClientError::Execution(m) => "Contract execution error: "@ + m@,
        ClientError::Serialization(m) => "Argument serialization error: "@ + m@,
        ClientError::Deserialization(m) => "Result deserialization error: "@ + m@,
    }
}

impl ClientError {
    /// Human-readable description.
    pub fn message(&self) -> (r: String)
        ensures
            r@ == client_error_text(*self),
    {
        let (prefix, m) = match self {
            ClientError::Execution(m) => ("Contract execution error: ", m),
            ClientError::Serialization(m) => ("Argument serialization error: ", m),
            ClientError::Deserialization(m) => ("Result deserialization error: ", m),
        };
        let mut s = to_owned_string(prefix);
        push_str(&mut s, m.as_str());
        s
    }
}

/// Client bound to one deployed contract on one network, optionally signing
/// with a wallet.
#[derive(Debug, Clone, PartialEq, Eq)]
pub struct ContractClient {
    pub contract_id: String,
    pub network: String,
    pub wallet: Option<String>,
}

/// The command-line arguments of an invocation of `function` with typed
/// arguments `(value, type)`: `contract invoke <id> <function> --network
/// <network>`, then `--arg <value> --type <type>` per argument, then
/// `--wallet <wallet> --submit` when a wallet is set.
pub open spec fn cli_args(
    contract_id: Seq<char>,
    network: Seq<char>,
    wallet: Option<Seq<char>>,
    function: Seq<char>,
    args: Seq<(Seq<char>, Seq<char>)>,
) -> Seq<Seq<char>> {
    let head = seq!["contract"@, "invoke"@, contract_id, function, "--network"@, network];
    let typed = args_flat(args);
    let tail = match wallet {
        Some(w) => seq!["--wallet"@, w, "--submit"@],
        None => Seq::empty(),
    };
    head + typed + tail
}

/// `--arg <value> --type <type>` for each argument, in order.
pub open spec fn args_flat(args: Seq<(Seq<char>, Seq<char>)>) -> Seq<Seq<char>>
    decreases args.len(),
{
    if args.len() == 0 {
        Seq::empty()
    } else {
        args_flat(args.drop_last()) + seq!["--arg"@, args.last().0, "--type"@, args.last().1]
    }
}

fn push_owned(v: &mut Vec<String>, s: &str)
    ensures
        string_views(final(v)@) == string_views(old(v)@).push(s@),
{
    let x = to_owned_string(s);
    proof {
        crate::text::lemma_string_views_push(old(v)@, x);
    }
    v.push(x);
}

impl ContractClient {
    pub fn new(contract_id: String, network: String) -> (r: Self)
        ensures
            r.contract_id == contract_id,
            r.network == network,
            r.wallet is None,
    {
        ContractClient { contract_id, network, wallet: None }
    }

    /// The client, signing with `wallet`.
    pub fn with_wallet(self, wallet: String) -> (r: Self)
        ensures
            r.contract_id == self.contract_id,
            r.network == self.network,
            r.wallet == Some(wallet),
    {
        ContractClient { wallet: Some(wallet), ..self }
    }

    /// The client, on `network`.
    pub fn with_network(self, network: String) -> (r: Self)
        ensures
            r.contract_id == self.contract_id,
            r.network == network,
            r.wallet == self.wallet,
    {
        ContractClient { network, ..self }
    }

    /// The wire form of an argument: its display text.
    pub fn serialize_arg(&self, value: &str) -> (r: Result<String, ClientError>)
        ensures
            r matches Ok(s) && s@ == value@,
    {
        Ok(to_owned_string(value))
    }

    /// The outcome of parsing a result, with a parse error reported as a
    /// deserialization error.
    pub fn parse_result<T>(&self, parsed: Result<T, String>) -> (r: Result<T, ClientError>)
        ensures
            match parsed {
                Ok(v) => r == Ok::<T, ClientError>(v),
                Err(m) => r == Err::<T, ClientError>(ClientError::Deserialization(m)),
            },
    {
        match parsed {
            Ok(v) => Ok(v),
            Err(m) => Err(ClientError::Deserialization(m)),
        }
    }

    /// The command-line arguments of an invocation of `function`.
    pub fn build_cli_args(&self, function: &str, args: &[(&str, &str)]) -> (r: Vec<String>)
        ensures
            string_views(r@) == cli_args(
                self.contract_id@,
                self.network@,
                match self.wallet {
                    Some(w) => Some(w@),
                    None => None,
                },
                function@,
                args@.map_values(|p: (&str, &str)| (p.0@, p.1@)),
            ),
    {
        let ghost av = args@.map_values(|p: (&str, &str)| (p.0@, p.1@));
        let mut cli: Vec<String> = Vec::new();
        push_owned(&mut cli, "contract");
        push_owned(&mut cli, "invoke");
        push_owned(&mut cli, self.contract_id.as_str());
        push_owned(&mut cli, function);
        push_owned(&mut cli, "--network");
        push_owned(&mut cli, self.network.as_str());
        let ghost head = string_views(cli@);
        assert(head =~= seq!["contract"@, "invoke"@, self.contract_id@, function@, "--network"@, self.network@]);
        let mut k: usize = 0;
        while k < args.len()
            invariant
                k <= args@.len(),
                av == args@.map_values(|p: (&str, &str)| (p.0@, p.1@)),
                string_views(cli@) == head + args_flat(av.take(k as int)),
            decreases args@.len() - k,
        {
            let (val, ty) = args[k];
            push_owned(&mut cli, "--arg");
            push_owned(&mut cli, val);
            push_owned(&mut cli, "--type");
            push_owned(&mut cli, ty);
            assert(av.take(k + 1).drop_last() =~= av.take(k as int));
            assert(av.take(k + 1).last() == (val@, ty@));
            assert(string_views(cli@) =~= head + args_flat(av.take(k + 1)));
            k += 1;
        }
        assert(av.take(k as int) =~= av);
        let ghost mid = string_views(cli@);
        match &self.wallet {
            Some(w) => {
                push_owned(&mut cli, "--wallet");
                push_owned(&mut cli, w.as_str());
                push_owned(&mut cli, "--submit");
                assert(string_views(cli@) =~= mid + seq!["--wallet"@, w@, "--submit"@]);
            },
            None => {
                assert(string_views(cli@) =~= mid + Seq::<Seq<char>>::empty());
            },
        }
        cli
    }
}

/// Token metadata.
#[derive(Debug, Clone, PartialEq, Eq)]
pub struct TokenMetadata {
    pub name: String,
    pub symbol: String,
    pub decimals: u32,
    pub total_supply: u128,
    pub admin: String,
}

/// An allowance granted by `owner` to `spender`.
#[derive(Debug, Clone, PartialEq, Eq)]
pub struct Allowance {
    pub owner: String,
    pub spender: String,
    pub amount: u128,
    pub expires_at: Option<u64>,
}

/// Errors the token contract reports.
#[derive(Debug, Clone, PartialEq, Eq)]
pub enum TokenError {
    InsufficientBalance,
    Unauthorized(String),
    InvalidAmount(u128),
}

/// A transfer event.
#[derive(Debug, Clone, PartialEq, Eq)]
pub struct TransferEvent {
    pub from: String,
    pub to: String,
    pub amount: u128,
}

/// The outcome a transfer's output reports: an insufficient balance when the
/// output names it.
pub fn transfer_outcome(output: &str) -> (r: Result<(), TokenError>)
    ensures
        crate::text::contains_seq(output@, "InsufficientBalance"@) ==> r == Err::<(), TokenError>(
            TokenError::InsufficientBalance,
        ),
        !crate::text::contains_seq(output@, "InsufficientBalance"@) ==> r is Ok,
{
    if crate::text::str_contains(output, "InsufficientBalance") {
        Err(TokenError::InsufficientBalance)
    } else {
        Ok(())
    }
}

} // verus!
