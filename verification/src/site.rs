//! Site-wide data available to every template, with its configuration defaults.

use vstd::prelude::*;

verus! {

/// Information about the site as a whole, shared read-only by every render.
/// Free-form extra values from the configuration are kept by the binary; only
/// the fields the core logic reads live here.
#[derive(Clone, Debug)]
pub struct Site {
    /// Where the assets will be copied to, relative to the output directory.
    pub assets: String,
    /// Title of the site.
    pub title: String,
    /// Description of the site.
    pub description: String,
    /// Keywords of the site.
    pub keywords: String,
    /// A representative image of the site.
    pub image: String,
    /// Language of the site.
    pub lang: String,
    /// Name of the author of the site.
    pub author: String,
    /// Email of the webmaster.
    pub email: String,
    /// URL of the site, the prefix of every permalink.
    pub url: String,
    /// Generate a sitemap?
    pub sitemap: bool,
    /// Generate an RSS feed?
    pub rss: bool,
    /// Generate an Atom feed?
    pub atom: bool,
}

/// The default of every "generate this output?" switch.
pub fn default_true() -> (r: bool)
    ensures
        r,
{
    true
}

/// The default directory assets are copied into.
pub fn default_assets() -> (r: String)
    ensures
        r@ == "assets"@,
{
    String::from_str("assets")
}

impl Site {
    /// A site with every field at its configuration default.
    pub fn empty() -> (r: Site)
        ensures
            r.sitemap && r.rss && r.atom,
            r.url@ == Seq::<char>::empty(),
    {
        Site {
            assets: default_assets(),
            title: String::new(),
            description: String::new(),
            keywords: String::new(),
            image: String::new(),
            lang: String::new(),
            author: String::new(),
            email: String::new(),
            url: String::new(),
            sitemap: true,
            rss: true,
            atom: true,
        }
    }
}

} // verus!
