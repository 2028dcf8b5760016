//! The aperture table that `%AD` commands fill, keyed by D code.
use std::collections::HashMap;
use vstd::prelude::*;

use super::commands::{ApertureTemplate, TemplateView};

verus! {

/// An aperture in the aperture table.
#[derive(Debug, Clone)]
pub struct Aperture {
    pub template: ApertureTemplate,
}

/// Aperture table built from %AD commands.
#[derive(Debug)]
pub struct ApertureTable {
    apertures: HashMap<u32, Aperture>,
}

impl View for ApertureTable {
    type V = Map<u32, TemplateView>;

    /// The template of each defined code.
    closed spec fn view(&self) -> Map<u32, TemplateView> {
        Map::new(|k: u32| self.apertures@.dom().contains(k), |k: u32| self.apertures@[k].template@)
    }
}

impl Default for ApertureTable {
    /// A table with no aperture.
    fn default() -> (res: Self)
        ensures
            res@ == Map::<u32, TemplateView>::empty(),
    {
        let t = ApertureTable { apertures: HashMap::new() };
        assert(t@ =~= Map::<u32, TemplateView>::empty());
        t
    }
}

impl ApertureTable {
    /// Defines (or redefines) the aperture with a D code.
    pub fn define(&mut self, code: u32, template: ApertureTemplate)
        ensures
            final(self)@ == old(self)@.insert(code, template@),
    {
        broadcast use vstd::std_specs::hash::group_hash_axioms;
        let ghost tv = template@;
        self.apertures.insert(code, Aperture { template });
        assert(self@ =~= old(self)@.insert(code, tv));
    }

    /// The aperture with a D code, if defined.
    pub fn get(&self, code: u32) -> (res: Option<&Aperture>)
        ensures
            match res {
                Some(a) => self@.contains_key(code) && a.template@ == self@[code],
                None => !self@.contains_key(code),
            },
    {
        broadcast use vstd::std_specs::hash::group_hash_axioms;
        self.apertures.get(&code)
    }
}

} // verus!
