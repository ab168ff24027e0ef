//! Setting up a registry for a host application: from which definitions it
//! is built, and whether it may grow at run time.

use vstd::prelude::*;
use crate::defs::{defs_valid, defs_view, NamespaceDef};
use crate::error::RegistryError;
use crate::registry::{build_outcome, registry_result_view, NamespaceRegistry, RegistryView};

verus! {

/// How the namespace of an application is set up.
pub struct NamespacePlugin {
    definitions: Option<&'static [NamespaceDef]>,
    allow_dynamic: bool,
}

/// What an application keeps of the setup once the registry is built.
pub struct NamespaceConfig {
    /// Whether paths may be registered at run time.
    pub allow_dynamic: bool,
}

impl NamespacePlugin {
    /// The definitions that the registry is built from, if any.
    pub closed spec fn definitions(&self) -> Option<&'static [NamespaceDef]> {
        self.definitions
    }

    /// Whether paths may be registered at run time.
    pub closed spec fn allows_dynamic(&self) -> bool {
        self.allow_dynamic
    }

    /// A setup without definitions: the registry starts empty.
    pub fn new() -> (plugin: Self)
        ensures
            plugin.definitions() is None,
            !plugin.allows_dynamic(),
    {
        NamespacePlugin { definitions: None, allow_dynamic: false }
    }

    /// A setup with the given definitions.
    pub fn from_definitions(definitions: &'static [NamespaceDef]) -> (plugin: Self)
        ensures
            plugin.definitions() == Some(definitions),
            !plugin.allows_dynamic(),
    {
        NamespacePlugin { definitions: Some(definitions), allow_dynamic: false }
    }

    /// The setup with registration at run time switched on or off.
    pub fn allow_dynamic_registration(self, allow: bool) -> (plugin: Self)
        ensures
            plugin.definitions() == self.definitions(),
            plugin.allows_dynamic() == allow,
    {
        NamespacePlugin { definitions: self.definitions, allow_dynamic: allow }
    }

    /// The registry of this setup: built from the definitions, or empty
    /// where there are none.
    pub fn registry(&self) -> (r: Result<NamespaceRegistry, RegistryError>)
        ensures
            match self.definitions() {
                Some(defs) => build_outcome(defs_view(defs@), registry_result_view(r)) && (r is Ok
                    <==> defs_valid(defs_view(defs@))),
                None => r is Ok && r->Ok_0@ == RegistryView::empty(),
            },
            r is Ok ==> r->Ok_0.wf(),
    {
        match self.definitions {
            Some(defs) => NamespaceRegistry::build(defs),
            None => Ok(NamespaceRegistry::new()),
        }
    }

    /// The part of the setup that stays in force while the application
    /// runs.
    pub fn config(&self) -> (config: NamespaceConfig)
        ensures
            config.allow_dynamic == self.allows_dynamic(),
    {
        NamespaceConfig { allow_dynamic: self.allow_dynamic }
    }
}

impl Default for NamespacePlugin {
    fn default() -> (plugin: Self)
        ensures
            plugin.definitions() is None,
            !plugin.allows_dynamic(),
    {
        NamespacePlugin::new()
    }
}

} // verus!
