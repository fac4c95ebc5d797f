use vstd::prelude::*;

verus! {

/// A structured, user-facing error record produced by the type checker:
/// a title, a message, and an optional remediation hint.  Rendering it is
/// the embedding application's job.
#[derive(Debug)]
pub struct Diagnostic {
    pub title: String,
    pub message: String,
    pub help: Option<String>,
}

impl Diagnostic {
    /// A diagnostic with the given title and message and no help text.
    pub fn new(title: &str, message: &str) -> (d: Self)
        ensures
            d.title@ == title@,
            d.message@ == message@,
            d.help is None,
    {
        Self { title: title.to_owned(), message: message.to_owned(), help: None }
    }

    /// The same diagnostic, with its help text set.
    pub fn with_help(self, help: &str) -> (d: Self)
        ensures
            d.title@ == self.title@,
            d.message@ == self.message@,
            match d.help {
                Some(h) => h@ == help@,
                None => false,
            },
    {
        Self { title: self.title, message: self.message, help: Some(help.to_owned()) }
    }
}

} // verus!
