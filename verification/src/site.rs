//! The site-wide settings read from `rsw.toml`.
use vstd::prelude::*;

verus! {

/// The site's name, its base URL and its menu: each menu entry holds the
/// entry's title first and its link second.
pub struct Site {
    pub site_name: String,
    pub site_url: String,
    pub menu: Option<Vec<Vec<String>>>,
}

impl Site {
    /// A site with the given settings.
    pub fn new(site_name: String, site_url: String, menu: Option<Vec<Vec<String>>>) -> (res: Self)
        ensures
            res.site_name == site_name,
            res.site_url == site_url,
            res.menu == menu,
    {
        Site { site_name, site_url, menu }
    }
}

} // verus!
