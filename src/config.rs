use vstd::prelude::*;

use crate::entry::ShortlinkMap;
use crate::resolve::find_shortlink;
use crate::resolve::resolve;

verus! {

/// The configuration of a shortlink service, loaded once and then only read.
pub struct Config {
    /// Addresses and ports to listen on.
    pub bind: Vec<String>,
    /// Message shown when a shortlink is not found; may contain HTML.
    pub not_found_message: String,
    /// The top-level mapping of shortlinks.
    pub links: ShortlinkMap,
}

impl Config {
    /// The answer to a request for `shortlink`: `Ok` with the target to
    /// redirect to, or `Err` with the not-found message.
    pub fn response<'c>(&'c self, shortlink: &str) -> (r: Result<&'c str, &'c str>)
        ensures
            match r {
                Ok(t) => resolve(shortlink@, self.links) == Some(t@),
                Err(msg) => resolve(shortlink@, self.links) is None && msg@
                    == self.not_found_message@,
            },
    {
        match find_shortlink(shortlink, &self.links) {
            Some(t) => Ok(t),
            None => Err(self.not_found_message.as_str()),
        }
    }
}

} // verus!
