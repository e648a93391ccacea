//! The kinds of section that the section map reports.

use vstd::prelude::*;

verus! {

/// A kind of section. Custom sections are not among them: they are
/// reported under their own names.
#[derive(Clone, Copy, Debug, PartialEq, Eq, Structural)]
pub enum SectionKind {
    Types,
    Imports,
    Functions,
    Tables,
    Memories,
    Tags,
    Globals,
    Exports,
    Start,
    Elements,
    DataCount,
    Data,
    Code,
    Module,
    CoreInstances,
    CoreTypes,
    Component,
    ComponentInstances,
    ComponentAlias,
    ComponentTypes,
    CanonicalFunctions,
    ComponentStart,
    ComponentImports,
    ComponentExports,
}

impl SectionKind {
    /// The name under which the section is listed.
    pub open spec fn label(self) -> Seq<char> {
        match self {
            SectionKind::Types => "types"@,
            SectionKind::Imports => "imports"@,
            SectionKind::Functions => "functions"@,
            SectionKind::Tables => "tables"@,
            SectionKind::Memories => "memories"@,
            SectionKind::Tags => "tags"@,
            SectionKind::Globals => "globals"@,
            SectionKind::Exports => "exports"@,
            SectionKind::Start => "start"@,
            SectionKind::Elements => "elements"@,
            SectionKind::DataCount => "data count"@,
            SectionKind::Data => "data"@,
            SectionKind::Code => "code"@,
            SectionKind::Module => "module"@,
            SectionKind::CoreInstances => "core instances"@,
            SectionKind::CoreTypes => "core types"@,
            SectionKind::Component => "component"@,
            SectionKind::ComponentInstances => "component instances"@,
            SectionKind::ComponentAlias => "component alias"@,
            SectionKind::ComponentTypes => "component types"@,
            SectionKind::CanonicalFunctions => "canonical functions"@,
            SectionKind::ComponentStart => "component start"@,
            SectionKind::ComponentImports => "component imports"@,
            SectionKind::ComponentExports => "component exports"@,
        }
    }

    /// Whether the section is a vector of items that starts with its
    /// length. The other sections hold a single thing.
    pub open spec fn indexed(self) -> bool {
        match self {
            SectionKind::Start
            | SectionKind::DataCount
            | SectionKind::Module
            | SectionKind::Component
            | SectionKind::ComponentStart => false,
            _ => true,
        }
    }

    /// The name under which the section is listed.
    pub fn name(self) -> (s: &'static str)
        ensures
            s@ == self.label(),
    {
        match self {
            SectionKind::Types => "types",
            SectionKind::Imports => "imports",
            SectionKind::Functions => "functions",
            SectionKind::Tables => "tables",
            SectionKind::Memories => "memories",
            SectionKind::Tags => "tags",
            SectionKind::Globals => "globals",
            SectionKind::Exports => "exports",
            SectionKind::Start => "start",
            SectionKind::Elements => "elements",
            SectionKind::DataCount => "data count",
            SectionKind::Data => "data",
            SectionKind::Code => "code",
            SectionKind::Module => "module",
            SectionKind::CoreInstances => "core instances",
            SectionKind::CoreTypes => "core types",
            SectionKind::Component => "component",
            SectionKind::ComponentInstances => "component instances",
            SectionKind::ComponentAlias => "component alias",
            SectionKind::ComponentTypes => "component types",
            SectionKind::CanonicalFunctions => "canonical functions",
            SectionKind::ComponentStart => "component start",
            SectionKind::ComponentImports => "component imports",
            SectionKind::ComponentExports => "component exports",
        }
    }

    /// Whether the section is a vector of items that starts with its
    /// length.
    pub fn is_indexed(self) -> (b: bool)
        ensures
            b == self.indexed(),
    {
        match self {
            SectionKind::Start
            | SectionKind::DataCount
            | SectionKind::Module
            | SectionKind::Component
            | SectionKind::ComponentStart => false,
            _ => true,
        }
    }
}

} // verus!
