//! Keys and checks of the recorded-fixture transports, and the transport
//! that talks to the live network.

use vstd::prelude::*;
use crate::text::{decimal, push_decimal};

verus! {

/// The transport that runs the Stellar CLI and queries the RPC endpoint.
pub struct LiveTransport;

/// The fixture format version this tool reads and writes.
pub const FIXTURE_VERSION: u32 = 1;

/// The fixture key of a deployment of `package`.
pub open spec fn deploy_key_spec(package: Seq<char>) -> Seq<char> {
    "deploy:"@ + package
}

/// The fixture key of an invocation of `function` in `package`.
pub open spec fn invoke_key_spec(package: Seq<char>, function: Seq<char>) -> Seq<char> {
    "invoke:"@ + package + ":"@ + function
}

/// The fixture key of a simulation of `function` in `package`.
pub open spec fn simulate_key_spec(package: Seq<char>, function: Seq<char>) -> Seq<char> {
    "simulate:"@ + package + ":"@ + function
}

/// The fixture key of a deployment: `deploy:<package>`.
pub fn deploy_key(package: &str) -> (k: String)
    ensures
        k@ == deploy_key_spec(package@),
{
    let mut k = String::new();
    k.append("deploy:");
    k.append(package);
    k
}

/// The fixture key of an invocation: `invoke:<package>:<function>`.
pub fn invoke_key(package: &str, function: &str) -> (k: String)
    ensures
        k@ == invoke_key_spec(package@, function@),
{
    let mut k = String::new();
    k.append("invoke:");
    k.append(package);
    k.append(":");
    k.append(function);
    k
}

/// The fixture key of a simulation: `simulate:<package>:<function>`.
pub fn simulate_key(package: &str, function: &str) -> (k: String)
    ensures
        k@ == simulate_key_spec(package@, function@),
{
    let mut k = String::new();
    k.append("simulate:");
    k.append(package);
    k.append(":");
    k.append(function);
    k
}

/// The message of a fixture entry that is missing.
pub fn fixture_not_found_message(key: &str) -> (m: String)
    ensures
        m@ == "Fixture not found for "@ + key@,
{
    let mut m = String::new();
    m.append("Fixture not found for ");
    m.append(key);
    m
}

/// Accepts a fixture of the current format version only.
pub fn check_fixture_version(version: u32) -> (r: Result<(), String>)
    ensures
        version == FIXTURE_VERSION ==> r is Ok,
        version != FIXTURE_VERSION ==> (r matches Err(m) && m@
            == "Fixture version mismatch: expected "@ + decimal(FIXTURE_VERSION as nat)
            + " got "@ + decimal(version as nat)),
{
    if version == FIXTURE_VERSION {
        Ok(())
    } else {
        let mut m = String::new();
        m.append("Fixture version mismatch: expected ");
        push_decimal(&mut m, FIXTURE_VERSION as u64);
        m.append(" got ");
        push_decimal(&mut m, version as u64);
        Err(m)
    }
}

/// The `stellar` arguments that build (without submitting) an invocation of
/// `function` on contract `contract_id`, followed by the function's own
/// arguments.
pub open spec fn invoke_args_spec(
    contract_id: Seq<char>,
    source: Seq<char>,
    network: Seq<char>,
    function: Seq<char>,
    func_args: Seq<Seq<char>>,
) -> Seq<Seq<char>> {
    seq![
        "contract"@,
        "invoke"@,
        "--id"@,
        contract_id,
        "--source"@,
        source,
        "--network"@,
        network,
        "--build-only"@,
        "--"@,
        function,
    ] + func_args
}

/// The character sequences of `v`'s strings.
pub open spec fn string_views(v: Seq<String>) -> Seq<Seq<char>> {
    v.map_values(|a: String| a@)
}

/// The `stellar` arguments that build (without submitting) an invocation.
pub fn build_invoke_args(
    contract_id: &str,
    source: &str,
    network: &str,
    function: &str,
    func_args: &[String],
) -> (r: Vec<String>)
    ensures
        string_views(r@) == invoke_args_spec(
            contract_id@,
            source@,
            network@,
            function@,
            string_views(func_args@),
        ),
{
    let mut args: Vec<String> = Vec::new();
    args.push("contract".to_owned());
    args.push("invoke".to_owned());
    args.push("--id".to_owned());
    args.push(contract_id.to_owned());
    args.push("--source".to_owned());
    args.push(source.to_owned());
    args.push("--network".to_owned());
    args.push(network.to_owned());
    args.push("--build-only".to_owned());
    args.push("--".to_owned());
    args.push(function.to_owned());
    let ghost base = string_views(args@);
    proof {
        assert(base =~= invoke_args_spec(
            contract_id@,
            source@,
            network@,
            function@,
            Seq::empty(),
        ));
    }
    let mut i: usize = 0;
    while i < func_args.len()
        invariant
            i <= func_args@.len(),
            args@.len() == 11 + i,
            string_views(args@) == base + string_views(func_args@.take(i as int)),
            base == invoke_args_spec(contract_id@, source@, network@, function@, Seq::empty()),
        decreases func_args.len() - i,
    {
        let ghost prev = args@;
        let a = func_args[i].clone();
        args.push(a);
        proof {
            assert(func_args@.take(i + 1) =~= func_args@.take(i as int).push(func_args@[i as int]));
            assert(args@ =~= prev.push(a));
            assert(string_views(prev.push(a)) =~= string_views(prev).push(a@));
            assert(string_views(func_args@.take(i as int).push(func_args@[i as int]))
                =~= string_views(func_args@.take(i as int)).push(func_args@[i as int]@));
            assert(string_views(args@) =~= base + string_views(func_args@.take(i + 1)));
        }
        i = i + 1;
    }
    proof {
        assert(func_args@.take(i as int) =~= func_args@);
        assert(string_views(args@) =~= invoke_args_spec(
            contract_id@,
            source@,
            network@,
            function@,
            string_views(func_args@),
        ));
    }
    args
}

} // verus!
