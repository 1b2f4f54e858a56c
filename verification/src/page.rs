//! Pages: scoping keys for scale resolution.
//!
//! A page carries no logic of its own; measurements and scales reference
//! it by id. Dimensions and viewport are bookkeeping only.

use vstd::prelude::*;
use crate::rat::Rat;

verus! {

/// A page's viewport dimensions.
#[derive(Debug, Clone, Copy, PartialEq)]
pub struct PageViewport {
    pub width: Rat,
    pub height: Rat,
}

/// A scanned drawing page.
#[derive(Debug, Clone, PartialEq)]
pub struct Page {
    pub id: String,
    pub name: Option<String>,
    pub width: Option<Rat>,
    pub height: Option<Rat>,
    pub viewport: Option<PageViewport>,
}

impl Page {
    /// An equal page with freshly owned storage.
    pub fn duplicate(&self) -> (r: Page)
        ensures
            r == *self,
    {
        let name = match &self.name {
            Some(n) => Some(n.clone()),
            None => None,
        };
        Page {
            id: self.id.clone(),
            name,
            width: self.width,
            height: self.height,
            viewport: self.viewport,
        }
    }
}

} // verus!
