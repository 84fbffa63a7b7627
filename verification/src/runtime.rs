//! What the proxy runs with at one moment: its settings and its upstream.

use vstd::prelude::*;

use crate::config::AppConfig;
use crate::storage::settings::{
    defaults_of, get_runtime_settings, settings_of, table_of, RuntimeSettings, SettingRow,
};
use crate::storage::upstreams::{
    copy_upstream, list_runtime, runtime_list, upstream_views, Upstream,
};

verus! {

/// The settings and the upstreams of one moment.
#[derive(Clone, Debug)]
pub struct RuntimeSnapshot {
    pub settings: RuntimeSettings,
    pub upstreams: Vec<Upstream>,
}

impl RuntimeSnapshot {
    /// The snapshot that the stored rows make up.
    pub fn load(
        settings_rows: &[SettingRow],
        upstream_rows: &[Upstream],
        config: &AppConfig,
    ) -> (snapshot: Self)
        ensures
            snapshot.settings == settings_of(table_of(settings_rows@), defaults_of(config@)),
            upstream_views(snapshot.upstreams@) == runtime_list(upstream_views(upstream_rows@)),
    {
        RuntimeSnapshot {
            settings: get_runtime_settings(settings_rows, config),
            upstreams: list_runtime(upstream_rows),
        }
    }

    /// The upstreams that requests may be forwarded to.
    pub fn configured_upstreams(&self) -> (upstreams: Vec<Upstream>)
        ensures
            upstream_views(upstreams@) == upstream_views(self.upstreams@),
    {
        let mut upstreams: Vec<Upstream> = Vec::new();
        let mut i: usize = 0;
        while i < self.upstreams.len()
            invariant
                i <= self.upstreams@.len(),
                upstream_views(upstreams@) == upstream_views(self.upstreams@).take(i as int),
            decreases self.upstreams@.len() - i,
        {
            let ghost before = upstream_views(upstreams@);
            upstreams.push(copy_upstream(&self.upstreams[i]));
            assert(upstream_views(upstreams@) =~= before.push(self.upstreams@[i as int]@));
            assert(upstream_views(upstreams@) =~= upstream_views(self.upstreams@).take(i + 1));
            i += 1;
        }
        assert(upstream_views(self.upstreams@).take(i as int) =~= upstream_views(self.upstreams@));
        upstreams
    }
}

}
