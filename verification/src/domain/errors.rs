//! Errors of the checkpoint domain.
use vstd::prelude::*;

use crate::text::push_str;

verus! {

/// A failure of the checkpoint domain.
#[derive(Debug, Clone)]
pub enum SprocketError {
    /// The manager state names an anchor manifest that is not stored.
    MissingAnchorManifest(String),
}

impl SprocketError {
    /// The error's message.
    pub fn message(&self) -> (m: String)
        ensures
            match self {
                SprocketError::MissingAnchorManifest(id) => m@ == "manager state is missing anchor manifest `"@
                    + id@ + "`"@,
            },
    {
        match self {
            SprocketError::MissingAnchorManifest(id) => {
                let mut m = String::from_str("manager state is missing anchor manifest `");
                push_str(&mut m, id.as_str());
                push_str(&mut m, "`");
                m
            },
        }
    }
}

} // verus!
