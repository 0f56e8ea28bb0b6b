//! The run's configuration, built once and then only read.
use vstd::prelude::*;
use crate::cookies::Cookie;

verus! {

/// What a run is asked to do. The cookies read from a cookie file are put
/// here before the work begins.
pub struct Options {
    pub base_url: Option<String>,
    pub charset: Option<String>,
    pub cookie_file: Option<String>,
    pub cookies: Vec<Cookie>,
    pub ignore_errors: bool,
    pub insecure: bool,
    pub isolate: bool,
    pub no_color: bool,
    pub no_css: bool,
    pub no_fonts: bool,
    pub no_frames: bool,
    pub no_images: bool,
    pub no_js: bool,
    pub no_metadata: bool,
    pub output: String,
    pub silent: bool,
    pub target: String,
    pub timeout: u64,
    pub unwrap_noscript: bool,
    pub user_agent: Option<String>,
}

impl Options {
    /// Whether any category of assets is excluded or the page is isolated.
    pub open spec fn excludes_any(self) -> bool {
        self.isolate || self.no_css || self.no_fonts || self.no_frames || self.no_js
            || self.no_images
    }
}

impl Default for Options {
    /// Every flag off, nothing excluded, no cookies, no limits.
    fn default() -> (r: Options)
        ensures
            r.base_url is None,
            r.charset is None,
            r.cookie_file is None,
            r.cookies@.len() == 0,
            !r.ignore_errors && !r.insecure && !r.isolate && !r.no_color,
            !r.no_css && !r.no_fonts && !r.no_frames && !r.no_images && !r.no_js,
            !r.no_metadata && !r.silent && !r.unwrap_noscript,
            r.output@.len() == 0,
            r.target@.len() == 0,
            r.timeout == 0,
            r.user_agent is None,
    {
        Options {
            base_url: None,
            charset: None,
            cookie_file: None,
            cookies: Vec::new(),
            ignore_errors: false,
            insecure: false,
            isolate: false,
            no_color: false,
            no_css: false,
            no_fonts: false,
            no_frames: false,
            no_images: false,
            no_js: false,
            no_metadata: false,
            output: String::new(),
            silent: false,
            target: String::new(),
            timeout: 0,
            unwrap_noscript: false,
            user_agent: None,
        }
    }
}

} // verus!
