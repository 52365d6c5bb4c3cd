//! The user's settings that outlive a session.

use vstd::prelude::*;

use crate::cache::{join, join_path};

verus! {

/// What the application remembers between runs.
pub struct UserConfig {
    /// The theme's name (such as "Mocha", "Latte", "Frappe" or "Macchiato").
    pub theme: Option<String>,
    /// The wiki URL last typed into the Crawl tab.
    pub last_wiki_url: Option<String>,
    /// The last export path.
    pub last_export_path: Option<String>,
    /// The seed categories last enabled, in display order.
    pub enabled_seeds: Vec<String>,
}

impl Default for UserConfig {
    /// Nothing remembered yet.
    fn default() -> (res: Self)
        ensures
            res.theme is None,
            res.last_wiki_url is None,
            res.last_export_path is None,
            res.enabled_seeds@.len() == 0,
    {
        UserConfig {
            theme: None,
            last_wiki_url: None,
            last_export_path: None,
            enabled_seeds: Vec::new(),
        }
    }
}

impl UserConfig {
    /// Where the settings are kept: `config.json` in the application's
    /// configuration directory.
    pub fn config_path(config_dir: &str) -> (res: String)
        ensures
            res@ == join_path(config_dir@, "config.json"@),
    {
        join(config_dir, "config.json")
    }
}

} // verus!
