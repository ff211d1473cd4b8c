use vstd::prelude::*;
use vstd::string::StringExecFns;

verus! {

/// The browser that renders pages.
pub const CHROME_HEADLESS: &'static str = "chromium";

/// Flag that runs it without a window.
pub const HEADLESS: &'static str = "--headless";

/// Flag that prints the rendered DOM on standard output.
pub const DUMP_TO_DOM: &'static str = "--dump-dom";

/// Renders pages with headless chromium, which expands CSS and runs scripts
/// before the DOM is read.
pub struct ChromiumParser {}

impl ChromiumParser {
    pub fn new() -> Self {
        ChromiumParser {}
    }

    /// The program and arguments that dump the rendered DOM of a URL:
    /// `chromium --headless --dump-dom <url>`.
    pub fn dump_dom_command(&self, url: &str) -> (r: Vec<String>)
        ensures
            r@.len() == 4,
            r@[0]@ == "chromium"@,
            r@[1]@ == "--headless"@,
            r@[2]@ == "--dump-dom"@,
            r@[3]@ == url@,
    {
        proof {
            reveal_strlit("chromium");
            reveal_strlit("--headless");
            reveal_strlit("--dump-dom");
        }
        let mut r: Vec<String> = Vec::new();
        r.push(String::from_str(CHROME_HEADLESS));
        r.push(String::from_str(HEADLESS));
        r.push(String::from_str(DUMP_TO_DOM));
        r.push(String::from_str(url));
        r
    }
}

/// Rendering to PDF is not offered: the call does nothing.
pub fn read_website_to_pdf(_website: &str) {
}

} // verus!
