//! One runtime for each core.

use crate::text::{cat, decimal, decimal_text};
use vstd::prelude::*;
use vstd::string::*;

verus! {

/// How many processors there are: one where that is unknown.
pub fn num_cpus(known: Option<usize>) -> (r: usize)
    ensures
        r == match known {
            Some(n) => n,
            None => 1,
        },
{
    match known {
        Some(n) => n,
        None => 1,
    }
}

/// One shard: its thread's name, and the processor it is pinned to.
#[derive(Debug)]
pub struct ShardPlan {
    pub index: usize,
    pub name: String,
    pub cpu: Option<usize>,
}

impl ShardPlan {
    /// Shard `i`, pinned to the processors in turn where shards are pinned.
    pub open spec fn is_shard(&self, i: int, pin: bool, cpus: usize) -> bool {
        &&& self.index == i
        &&& self.name@ == "shard-"@ + decimal(i as nat)
        &&& self.cpu == if pin {
            Some((i % cpus as int) as usize)
        } else {
            None
        }
    }
}

/// The shards to be started.
pub fn plan_shards(shards: usize, pin: bool, cpus: usize) -> (v: Vec<ShardPlan>)
    requires
        cpus > 0,
    ensures
        v@.len() == shards,
        forall|i: int| 0 <= i < shards ==> (#[trigger] v@[i]).is_shard(i, pin, cpus),
{
    let mut v: Vec<ShardPlan> = Vec::new();
    let mut i: usize = 0;
    while i < shards
        invariant
            i <= shards,
            cpus > 0,
            v.len() == i,
            forall|k: int| 0 <= k < i ==> (#[trigger] v@[k]).is_shard(k, pin, cpus),
        decreases shards - i,
    {
        let digits = decimal_text(i as u64);
        let cpu = if pin {
            Some(i % cpus)
        } else {
            None
        };
        v.push(ShardPlan { index: i, name: cat("shard-", digits.as_str()), cpu });
        i = i + 1;
    }
    v
}

/// As long as there are no more shards than processors, no two are pinned to the same one.
pub proof fn shards_spread_out(a: ShardPlan, b: ShardPlan, i: int, j: int, cpus: usize)
    requires
        0 <= i < j < cpus,
        a.is_shard(i, true, cpus),
        b.is_shard(j, true, cpus),
    ensures
        a.cpu != b.cpu,
{
    vstd::arithmetic::div_mod::lemma_small_mod(i as nat, cpus as nat);
    vstd::arithmetic::div_mod::lemma_small_mod(j as nat, cpus as nat);
}

/// Shards are pinned to the processors in turn, or not at all, and named by their number.
pub proof fn shards_take_turns(p: ShardPlan, i: int, pin: bool, cpus: usize)
    requires
        p.is_shard(i, pin, cpus),
        0 <= i <= usize::MAX,
        cpus > 0,
    ensures
        p.index == i,
        p.name@ == "shard-"@ + decimal(i as nat),
        !pin ==> p.cpu is None,
        pin ==> (p.cpu matches Some(c) && c < cpus && c == i % (cpus as int)),
{
    vstd::arithmetic::div_mod::lemma_mod_bound(i, cpus as int);
}

/// Where the number of processors is unknown there is one.
pub proof fn there_is_one_processor_at_least(known: Option<usize>, r: usize)
    requires
        call_ensures(num_cpus, (known,), r),
    ensures
        known is None ==> r == 1,
        known matches Some(n) ==> r == n,
{
}

/// There are as many plans as shards, each with its number and, where they are pinned, the
/// processors in turn.
pub proof fn each_shard_has_a_plan(
    shards: usize,
    pin: bool,
    cpus: usize,
    v: Vec<ShardPlan>,
    i: int,
)
    requires
        cpus > 0,
        call_ensures(plan_shards, (shards, pin, cpus), v),
        0 <= i < shards,
    ensures
        v@.len() == shards,
        v@[i].index == i,
        v@[i].name@ == "shard-"@ + decimal(i as nat),
        !pin ==> v@[i].cpu is None,
        pin ==> (v@[i].cpu matches Some(c) && c == i % (cpus as int)),
{
    shards_take_turns(v@[i], i, pin, cpus);
}

} // verus!
