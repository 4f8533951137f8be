//! The stylesheet stage: stylesheets are parsed and printed again, minified on request.
use vstd::prelude::*;

verus! {

/// What `lightningcss` prints for a stylesheet, or none where it rejects it.
pub uninterp spec fn css_printed(code: Seq<char>, filename: Seq<char>, minify: bool) -> Option<Seq<char>>;

/// Relies on `lightningcss`'s `StyleSheet::parse` and `to_css`: parses `code`
/// (named `filename` in messages) and prints it, minified when asked. The
/// error carries lightningcss's description of what failed.
#[verifier::external_body]
fn print_stylesheet(code: &str, filename: &str, minify: bool) -> (r: Result<String, String>)
    ensures
        match r {
            Ok(o) => css_printed(code@, filename@, minify) == Some(o@),
            Err(_) => css_printed(code@, filename@, minify) is None,
        },
{
    let options = lightningcss::stylesheet::ParserOptions { filename: filename.to_string(), ..Default::default() };
    let sheet = lightningcss::stylesheet::StyleSheet::parse(code, options)
        .map_err(|e| format!("Parsing of css failed: {}", e))?;
    sheet
        .to_css(lightningcss::printer::PrinterOptions { minify, ..Default::default() })
        .map(|out| out.code)
        .map_err(|e| format!("Compression of css failed: {}", e))
}

/// The stylesheet stage.
pub struct CssParser {
    minify: bool,
}

impl CssParser {
    pub closed spec fn minifies(&self) -> bool {
        self.minify
    }

    /// Stylesheets are printed as they were written.
    pub fn default() -> (r: CssParser)
        ensures
            !r.minifies(),
    {
        CssParser { minify: false }
    }

    /// This stage, minifying.
    pub fn minify(self) -> (r: CssParser)
        ensures
            r.minifies(),
    {
        CssParser { minify: true }
    }

    /// The stylesheet `code`, named `filename`, printed again.
    pub fn process(&self, code: &str, filename: &str) -> (r: Result<String, String>)
        ensures
            match r {
                Ok(o) => css_printed(code@, filename@, self.minifies()) == Some(o@),
                Err(_) => css_printed(code@, filename@, self.minifies()) is None,
            },
    {
        print_stylesheet(code, filename, self.minify)
    }
}

} // verus!
