//! Network conditions for simulations: the arguments of the `tc` commands
//! that degrade or restore the network of the host. Running them is left to
//! the caller.
use vstd::prelude::*;

verus! {

/// Arguments of `tc` that delay every packet on `eth0` by 50 ms, give or
/// take 10 ms, normally distributed.
pub fn slow() -> (r: Vec<&'static str>)
    ensures
        r@ == seq![
            "qdisc",
            "add",
            "dev",
            "eth0",
            "root",
            "netem",
            "delay",
            "50ms",
            "10ms",
            "distribution",
            "normal",
        ],
{
    let r: Vec<&'static str> = vec![
        "qdisc",
        "add",
        "dev",
        "eth0",
        "root",
        "netem",
        "delay",
        "50ms",
        "10ms",
        "distribution",
        "normal",
    ];
    assert(r@ =~= seq![
        "qdisc",
        "add",
        "dev",
        "eth0",
        "root",
        "netem",
        "delay",
        "50ms",
        "10ms",
        "distribution",
        "normal",
    ]);
    r
}

/// Arguments of `tc` that drop 20% of the packets on `eth0`, each drop
/// depending 75% on the one before.
pub fn flaky() -> (r: Vec<&'static str>)
    ensures
        r@ == seq!["qdisc", "add", "dev", "eth0", "root", "netem", "loss", "20%", "75%"],
{
    let r: Vec<&'static str> = vec!["qdisc", "add", "dev", "eth0", "root", "netem", "loss", "20%", "75%"];
    assert(r@ =~= seq!["qdisc", "add", "dev", "eth0", "root", "netem", "loss", "20%", "75%"]);
    r
}

/// Arguments of `tc` that remove every added condition from `eth0`.
pub fn fast() -> (r: Vec<&'static str>)
    ensures
        r@ == seq!["qdisc", "del", "dev", "eth0", "root"],
{
    let r: Vec<&'static str> = vec!["qdisc", "del", "dev", "eth0", "root"];
    assert(r@ =~= seq!["qdisc", "del", "dev", "eth0", "root"]);
    r
}

} // verus!
