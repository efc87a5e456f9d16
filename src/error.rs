use vstd::prelude::*;

verus! {

/// Every failure the library reports.
#[derive(Debug)]
pub enum AethelError {
    ConfigNotFound,
    /// A schema inheritance chain re-enters the named schema.
    CircularSchemaDependency(String),
    VaultNotFound(String),
    PluginNotFound(String),
    /// A schema names a parent that no extension defines.
    SchemaNotFound(String),
    InvalidArtifactType(String),
    ArtifactNotFound(String),
    InvalidUuid(String),
    ValidationError(String),
    /// The text lacks the delimiter framing or its header does not decode.
    MalformedDocument(String),
    /// An index insert whose identifier is already present.
    DuplicateIdentifier(String),
    StoreUnavailable(String),
    Other(String),
}

} // verus!
