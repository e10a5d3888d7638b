//! Minification of the rendered output artifacts. The minifiers are outside
//! collaborators; each result is named, as a function of the input text
//! alone, and everything downstream is proved against those names.

use vstd::prelude::*;

verus! {

/// What HTML minification yields on `input`: the minified document, or an
/// error text when the output is not valid UTF-8; a function of the input
/// alone.
pub uninterp spec fn html_minified(input: Seq<char>) -> Result<Seq<char>, Seq<char>>;

/// Minifies an HTML document, keeping closing tags.
/// Relies on `minify_html::minify` (with closing tags kept) and on
/// `String::from_utf8` for the error case.
#[verifier::external_body]
pub fn minify_html(input: String) -> (r: Result<String, String>)
    ensures
        match r {
            Ok(o) => html_minified(input@) == Ok::<Seq<char>, Seq<char>>(o@),
            Err(e) => html_minified(input@) == Err::<Seq<char>, Seq<char>>(e@),
        },
{
    String::from_utf8(minify_html::minify(
        input.as_bytes(),
        &minify_html::Cfg { keep_closing_tags: true, ..Default::default() },
    )).map_err(|e| format!("{e}"))
}

/// Minifies a script; scripts are currently passed through unchanged.
pub fn minify_js(input: String) -> (r: Result<String, String>)
    ensures
        r matches Ok(o) && o@ == input@,
{
    Ok(input)
}

/// What CSS minification yields on `input`: the minified stylesheet, or the
/// parse or print error text; a function of the input alone.
pub uninterp spec fn css_minified(input: Seq<char>) -> Result<Seq<char>, Seq<char>>;

/// Minifies a stylesheet.
/// Relies on `lightningcss::stylesheet::StyleSheet::parse` and `to_css`
/// (with `minify` set); the parsed sheet borrows the input and cannot
/// outlive this call.
#[verifier::external_body]
pub fn minify_css(input: String) -> (r: Result<String, String>)
    ensures
        match r {
            Ok(o) => css_minified(input@) == Ok::<Seq<char>, Seq<char>>(o@),
            Err(e) => css_minified(input@) == Err::<Seq<char>, Seq<char>>(e@),
        },
{
    let sheet = match lightningcss::stylesheet::StyleSheet::parse(
        &input,
        lightningcss::stylesheet::ParserOptions::default(),
    ) {
        Ok(sheet) => sheet,
        Err(e) => { return Err(format!("{e}")) },
    };
    sheet.to_css(lightningcss::printer::PrinterOptions {
        minify: true,
        ..lightningcss::printer::PrinterOptions::default()
    }).map(|res| res.code).map_err(|e| format!("{e}"))
}

} // verus!
