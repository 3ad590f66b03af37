//! A configuration that passed validation, with its route table.

use crate::config::routes::{
    first_missing_pool, hosts_usable, members_before, missing_pool, urls_usable, RouteTable,
};
use crate::config::types::{ConfigError, ProxyConfig, UpstreamConfig};
use crate::config::upstream::{
    expansion, rotation_follows_weights, usable, wrapped, UpstreamIds, UpstreamState,
};
use crate::config::validate::{
    config_issue, lemma_first_some_none, pool_issue, pools_issue, route_issue, routes_issue,
    shape_issue, listeners_issue, services_issue, admin_issue, total_weight, upstream_issue,
};
use crate::uri::parsed_uri;
use vstd::prelude::*;

verus! {

/// A configuration with the table built from it. A copy of it counts failures, turns and tokens
/// on its own.
#[derive(Clone, Debug)]
pub struct ConfigSnapshot {
    pub config: ProxyConfig,
    pub routes: RouteTable,
}

/// A configuration without complaints has usable URLs and hosts, and no route without a pool.
pub proof fn lemma_valid_config(c: ProxyConfig)
    requires
        config_issue(c).is_none(),
    ensures
        urls_usable(c),
        hosts_usable(c.routes@),
        first_missing_pool(c).is_none(),
        forall|i: int|
            0 <= i < c.upstream_pools@.len() ==> pool_issue(
                (#[trigger] c.upstream_pools@[i]).0,
                c.upstream_pools@[i].1,
            ).is_none(),
{
    let parts = seq![
        shape_issue(c),
        listeners_issue(c),
        services_issue(c),
        routes_issue(c),
        pools_issue(c),
        admin_issue(c),
    ];
    lemma_first_some_none(parts);
    assert(parts[3].is_none());
    assert(parts[4].is_none());
    let pool_issues = Seq::new(
        c.upstream_pools@.len(),
        |i: int| pool_issue(c.upstream_pools@[i].0, c.upstream_pools@[i].1),
    );
    lemma_first_some_none(pool_issues);
    assert forall|i: int| 0 <= i < c.upstream_pools@.len() implies pool_issue(
        (#[trigger] c.upstream_pools@[i]).0,
        c.upstream_pools@[i].1,
    ).is_none() by {
        assert(pool_issues[i].is_none());
    }
    assert forall|i: int, j: int|
        #![trigger c.upstream_pools@[i].1.upstreams@[j]]
        0 <= i < c.upstream_pools@.len() && 0 <= j
            < c.upstream_pools@[i].1.upstreams@.len() implies usable(
        parsed_uri(c.upstream_pools@[i].1.upstreams@[j].url@),
    ) by {
        let name = c.upstream_pools@[i].0;
        let p = c.upstream_pools@[i].1;
        let issues = Seq::new(p.upstreams@.len(), |k: int| upstream_issue(name, p.upstreams@[k]));
        lemma_first_some_none(issues);
        assert(issues[j].is_none());
    }
    let route_issues = Seq::new(
        c.routes@.len(),
        |i: int| route_issue(c.routes@, c.upstream_pools@, i),
    );
    lemma_first_some_none(route_issues);
    let missing = Seq::new(
        c.routes@.len(),
        |i: int| missing_pool(c.routes@[i], c.upstream_pools@),
    );
    assert forall|i: int| 0 <= i < c.routes@.len() implies (#[trigger] missing[i]).is_none() by {
        assert(route_issues[i].is_none());
    }
    lemma_first_some_none(missing);
    assert forall|i: int| 0 <= i < c.routes@.len() implies (#[trigger] c.routes@[i]).host@ == "*"@
        || crate::uri::host_key(c.routes@[i].host@).is_some() by {
        assert(route_issues[i].is_none());
    }
}

impl ConfigSnapshot {
    /// Validates a configuration and builds its route table.
    pub fn new(config: ProxyConfig, ids: &mut UpstreamIds) -> (r: Result<
        ConfigSnapshot,
        ConfigError,
    >)
        ensures
            r.is_ok() <==> config_issue(config).is_none(),
            r matches Err(e) ==> e matches ConfigError::Validation(m) && config_issue(config)
                == Some(m@) && *final(ids) == *old(ids),
            r matches Ok(s) ==> s.config == config && s.routes.built_from(config, old(ids).next)
                && final(ids).next == wrapped(
                old(ids).next,
                members_before(config.upstream_pools@, config.upstream_pools@.len() as int),
            ),
    {
        match config.validate() {
            Ok(()) => {},
            Err(e) => {
                return Err(e);
            },
        }
        proof {
            lemma_valid_config(config);
        }
        match RouteTable::new(&config, ids) {
            Ok(routes) => Ok(ConfigSnapshot { config, routes }),
            Err(e) => Err(e),
        }
    }
}

/// In a snapshot every pool always has an upstream to offer.
pub proof fn valid_pools_always_choose(
    config: ProxyConfig,
    routes: RouteTable,
    first_id: usize,
    i: int,
)
    requires
        config_issue(config).is_none(),
        routes.built_from(config, first_id),
        0 <= i < routes.pools@.len(),
        routes.pools@[i].upstreams@.len() <= usize::MAX,
    ensures
        routes.pools@[i].choice().0.is_some(),
{
    lemma_valid_config(config);
    let p = routes.pools@[i];
    let c = config.upstream_pools@[i].1;
    let name = config.upstream_pools@[i].0;
    assert(p.fresh(c, wrapped(first_id, members_before(config.upstream_pools@, i))));
    assert(pool_issue(name, c).is_none());
    assert(c.upstreams@.len() > 0);
    let issues = Seq::new(c.upstreams@.len(), |k: int| upstream_issue(name, c.upstreams@[k]));
    lemma_first_some_none(issues);
    assert(issues[0].is_none());
    assert(c.upstreams@[0].weight > 0);
    assert(p.upstreams@[0].config == c.upstreams@[0]);
    rotation_follows_weights(p.upstreams@, 0);
}

proof fn lemma_rotation_len(us: Seq<UpstreamState>, cs: Seq<UpstreamConfig>)
    requires
        us.len() == cs.len(),
        forall|i: int| 0 <= i < us.len() ==> (#[trigger] us[i]).config == cs[i],
    ensures
        expansion(us).len() == total_weight(cs),
    decreases us.len(),
{
    if us.len() > 0 {
        assert forall|i: int| 0 <= i < us.drop_last().len() implies (
        #[trigger] us.drop_last()[i]).config == cs.drop_last()[i] by {
            assert(us[i].config == cs[i]);
        }
        lemma_rotation_len(us.drop_last(), cs.drop_last());
        assert(us[us.len() - 1].config == cs[us.len() - 1]);
    }
}

/// In a snapshot the rotation of a pool never has more places than the greatest sum of weights.
pub proof fn valid_rotations_are_bounded(
    config: ProxyConfig,
    routes: RouteTable,
    first_id: usize,
    i: int,
)
    requires
        config_issue(config).is_none(),
        routes.built_from(config, first_id),
        0 <= i < routes.pools@.len(),
    ensures
        routes.pools@[i].expanded@.len() <= 100_000,
{
    lemma_valid_config(config);
    let p = routes.pools@[i];
    let c = config.upstream_pools@[i].1;
    let name = config.upstream_pools@[i].0;
    assert(p.fresh(c, wrapped(first_id, members_before(config.upstream_pools@, i))));
    assert(pool_issue(name, c).is_none());
    assert forall|k: int| 0 <= k < p.upstreams@.len() implies (#[trigger] p.upstreams@[k]).config
        == c.upstreams@[k] by {
        assert(p.upstreams@[k].fresh(
            c.upstreams@[k],
            wrapped(wrapped(first_id, members_before(config.upstream_pools@, i)), k),
        ));
    }
    lemma_rotation_len(p.upstreams@, c.upstreams@);
}

/// A snapshot is made of every sound configuration and of no other, holds it as it is, and one
/// that is refused is told the first complaint and takes no ids.
pub proof fn snapshots_are_made_of_sound_configurations(
    config: ProxyConfig,
    ids: &mut UpstreamIds,
    r: Result<ConfigSnapshot, ConfigError>,
)
    requires
        call_ensures(ConfigSnapshot::new, (config, ids), r),
    ensures
        r is Ok <==> config_issue(config) is None,
        r matches Ok(s) ==> s.config == config,
        r matches Err(e) ==> *final(ids) == *old(ids) && (e matches ConfigError::Validation(m)
            && Some(m@) == config_issue(config)),
{
}

} // verus!
