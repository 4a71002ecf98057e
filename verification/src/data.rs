//! The data model of the registry: a snapshot of modules, each with an
//! ordered list of versions and optional descriptive metadata, plus the
//! projected shapes that the query operations return.

use vstd::prelude::*;

verus! {

/// One released version of a module. The version string is the only field
/// the engine reads; everything else a version carries is opaque to it.
pub struct Version {
    pub version: String,
}

/// Descriptive metadata attached to a module by its source repository.
pub struct RepositoryMetadata {
    pub description: String,
}

/// A named entry of the registry. `name` is the lookup key; `versions` is
/// ordered as received, its first element being the latest release.
pub struct Module {
    pub name: String,
    pub versions: Vec<Version>,
    pub repository_metadata: Option<RepositoryMetadata>,
}

/// The decoded registry: an immutable snapshot of modules in source order.
pub struct Registry {
    pub registry_url: String,
    pub modules: Vec<Module>,
}

/// The projection of a module that listing and searching return.
pub struct ModuleListItem {
    pub name: String,
    pub latest_version: String,
    pub description: String,
}

/// A summary of the registry: its source location and how many modules it has.
pub struct RegistryInfo {
    pub registry_url: String,
    pub module_count: usize,
}

/// The mathematical value of a [`Module`].
pub struct ModuleView {
    pub name: Seq<char>,
    pub versions: Seq<Seq<char>>,
    pub description: Option<Seq<char>>,
}

/// The mathematical value of a [`Registry`].
pub struct RegistryView {
    pub url: Seq<char>,
    pub modules: Seq<ModuleView>,
}

/// The mathematical value of a [`ModuleListItem`].
pub struct ItemView {
    pub name: Seq<char>,
    pub latest_version: Seq<char>,
    pub description: Seq<char>,
}

impl View for Version {
    type V = Seq<char>;

    open spec fn view(&self) -> Seq<char> {
        self.version@
    }
}

impl View for RepositoryMetadata {
    type V = Seq<char>;

    open spec fn view(&self) -> Seq<char> {
        self.description@
    }
}

impl View for Module {
    type V = ModuleView;

    open spec fn view(&self) -> ModuleView {
        ModuleView {
            name: self.name@,
            versions: self.versions@.map_values(|v: Version| v@),
            description: match self.repository_metadata {
                Option::Some(md) => Option::Some(md@),
                Option::None => Option::None,
            },
        }
    }
}

impl View for Registry {
    type V = RegistryView;

    open spec fn view(&self) -> RegistryView {
        RegistryView {
            url: self.registry_url@,
            modules: self.modules@.map_values(|m: Module| m@),
        }
    }
}

impl View for ModuleListItem {
    type V = ItemView;

    open spec fn view(&self) -> ItemView {
        ItemView {
            name: self.name@,
            latest_version: self.latest_version@,
            description: self.description@,
        }
    }
}

/// The projection rule: a module's listed shape keeps its name, takes the
/// first version as the latest one (the empty string when it has none), and
/// takes the metadata description (the empty string when metadata is absent).
pub open spec fn project_module(m: ModuleView) -> ItemView {
    ItemView {
        name: m.name,
        latest_version: if m.versions.len() == 0 {
            Seq::<char>::empty()
        } else {
            m.versions[0]
        },
        description: match m.description {
            Option::Some(d) => d,
            Option::None => Seq::<char>::empty(),
        },
    }
}

} // verus!
