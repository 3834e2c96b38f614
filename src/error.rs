//! The library's error type.
use vstd::prelude::*;

verus! {

/// The errors of the content pipeline.
#[derive(Debug)]
pub enum Error {
    /// An underlying I/O failure.
    IoError(std::io::Error),
    /// The template engine could not parse a template.
    TemplateError(Box<handlebars::TemplateError>),
    /// The template engine failed while rendering.
    RenderError(Box<handlebars::RenderError>),
    /// A document ended inside its front matter; holds the document's name.
    UnexpectedEOF(String),
    /// Any other failure, described by its message.
    Other(String),
}

/// Relies on `std::io::Error`'s `Display`: the error's text.
#[verifier::external_body]
fn io_error_text(e: &std::io::Error) -> String {
    format!("{}", e)
}

/// Relies on `handlebars::TemplateError`'s `Display`: the error's text.
#[verifier::external_body]
fn template_error_text(e: &handlebars::TemplateError) -> String {
    format!("{}", e)
}

/// Relies on `handlebars::RenderError`'s `Display`: the error's text.
#[verifier::external_body]
fn render_error_text(e: &handlebars::RenderError) -> String {
    format!("{}", e)
}

/// Text of a literal message.
pub fn text(s: &str) -> (r: String)
    ensures
        r@ == s@,
{
    s.to_owned()
}

impl Error {
    /// The message shown to a user for this error.
    pub fn message(&self) -> (r: String)
        ensures
            self matches Error::Other(m) ==> r@ == m@,
            self matches Error::UnexpectedEOF(name) ==> r@ == "Unexpected end of file: "@ + name@,
    {
        match self {
            Error::IoError(e) => io_error_text(e),
            Error::TemplateError(e) => template_error_text(e),
            Error::RenderError(e) => render_error_text(e),
            Error::UnexpectedEOF(name) => {
                let mut r = text("Unexpected end of file: ");
                r.append(name.as_str());
                r
            },
            Error::Other(m) => m.clone(),
        }
    }
}

} // verus!
