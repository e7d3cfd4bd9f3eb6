//! Closed vocabularies.
//!
//! Every vocabulary here is closed on purpose: values are parsed, never invented, and an
//! unknown string is an error rather than a silently tolerated free-text tag.
use vstd::prelude::*;
use crate::error::NerveError;
use crate::text::str_eq;

verus! {

/// The kinds of entity the graph can name.
#[derive(Debug, Clone, Copy, PartialEq, Eq, Structural, PartialOrd, Ord, Hash)]
pub enum EntityKind {
    /// The indexed repository itself.
    Repository,
    /// A directory inside the repository.
    Directory,
    /// A file inside the repository.
    File,
    /// A module. For TS/JS this is 1:1 with a file.
    Module,
    /// A free function (including declarator-bound arrow and function expressions).
    Function,
    /// A class method.
    Method,
    /// A class.
    Class,
    /// A TypeScript interface.
    Interface,
    /// A prose document. For Markdown this is 1:1 with a file.
    Document,
    /// A heading-delimited region of a document.
    Section,
    /// A reference target that could not be resolved. A value, never an omission.
    Unresolved,
    /// One coverage report, identified by its repository-relative path and its content hash.
    CoverageRun,
    /// A declared entry point at which something outside the indexed code can cause a symbol to
    Endpoint,
}

impl EntityKind {
    /// Every value, in declaration order.
    pub const ALL: [EntityKind; 13] = [
        EntityKind::Repository,
        EntityKind::Directory,
        EntityKind::File,
        EntityKind::Module,
        EntityKind::Function,
        EntityKind::Method,
        EntityKind::Class,
        EntityKind::Interface,
        EntityKind::Document,
        EntityKind::Section,
        EntityKind::Unresolved,
        EntityKind::CoverageRun,
        EntityKind::Endpoint,
    ];

    /// The canonical name of a value.
    pub open spec fn name_of(self) -> Seq<char> {
        match self {
            EntityKind::Repository => "repository"@,
            EntityKind::Directory => "directory"@,
            EntityKind::File => "file"@,
            EntityKind::Module => "module"@,
            EntityKind::Function => "function"@,
            EntityKind::Method => "method"@,
            EntityKind::Class => "class"@,
            EntityKind::Interface => "interface"@,
            EntityKind::Document => "document"@,
            EntityKind::Section => "section"@,
            EntityKind::Unresolved => "unresolved"@,
            EntityKind::CoverageRun => "coverage_run"@,
            EntityKind::Endpoint => "endpoint"@,
        }
    }

    /// Canonical name, as stored and as carried in responses.
    pub fn as_str(self) -> (text: &'static str)
        ensures
            text@ == self.name_of(),
    {
        match self {
            EntityKind::Repository => "repository",
            EntityKind::Directory => "directory",
            EntityKind::File => "file",
            EntityKind::Module => "module",
            EntityKind::Function => "function",
            EntityKind::Method => "method",
            EntityKind::Class => "class",
            EntityKind::Interface => "interface",
            EntityKind::Document => "document",
            EntityKind::Section => "section",
            EntityKind::Unresolved => "unresolved",
            EntityKind::CoverageRun => "coverage_run",
            EntityKind::Endpoint => "endpoint",
        }
    }

    /// The value whose canonical name is `text`, if any.
    pub open spec fn parse_name(text: Seq<char>) -> Option<EntityKind> {
        if text == "repository"@ {
            Some(EntityKind::Repository)
        } else if text == "directory"@ {
            Some(EntityKind::Directory)
        } else if text == "file"@ {
            Some(EntityKind::File)
        } else if text == "module"@ {
            Some(EntityKind::Module)
        } else if text == "function"@ {
            Some(EntityKind::Function)
        } else if text == "method"@ {
            Some(EntityKind::Method)
        } else if text == "class"@ {
            Some(EntityKind::Class)
        } else if text == "interface"@ {
            Some(EntityKind::Interface)
        } else if text == "document"@ {
            Some(EntityKind::Document)
        } else if text == "section"@ {
            Some(EntityKind::Section)
        } else if text == "unresolved"@ {
            Some(EntityKind::Unresolved)
        } else if text == "coverage_run"@ {
            Some(EntityKind::CoverageRun)
        } else if text == "endpoint"@ {
            Some(EntityKind::Endpoint)
        } else {
            None
        }
    }

    /// The value whose canonical name is `text`, if any.
    pub fn from_name(text: &str) -> (found: Option<EntityKind>)
        ensures
            found == EntityKind::parse_name(text@),
    {
        if str_eq(text, "repository") {
            return Some(EntityKind::Repository);
        }
        if str_eq(text, "directory") {
            return Some(EntityKind::Directory);
        }
        if str_eq(text, "file") {
            return Some(EntityKind::File);
        }
        if str_eq(text, "module") {
            return Some(EntityKind::Module);
        }
        if str_eq(text, "function") {
            return Some(EntityKind::Function);
        }
        if str_eq(text, "method") {
            return Some(EntityKind::Method);
        }
        if str_eq(text, "class") {
            return Some(EntityKind::Class);
        }
        if str_eq(text, "interface") {
            return Some(EntityKind::Interface);
        }
        if str_eq(text, "document") {
            return Some(EntityKind::Document);
        }
        if str_eq(text, "section") {
            return Some(EntityKind::Section);
        }
        if str_eq(text, "unresolved") {
            return Some(EntityKind::Unresolved);
        }
        if str_eq(text, "coverage_run") {
            return Some(EntityKind::CoverageRun);
        }
        if str_eq(text, "endpoint") {
            return Some(EntityKind::Endpoint);
        }
        None
    }

    /// Two different values never share a canonical name.
    pub proof fn lemma_names_distinct(a: EntityKind, b: EntityKind)
        ensures
            a.name_of() == b.name_of() ==> a == b,
    {
        reveal_strlit("repository");
        reveal_strlit("directory");
        reveal_strlit("file");
        reveal_strlit("module");
        reveal_strlit("function");
        reveal_strlit("method");
        reveal_strlit("class");
        reveal_strlit("interface");
        reveal_strlit("document");
        reveal_strlit("section");
        reveal_strlit("unresolved");
        reveal_strlit("coverage_run");
        reveal_strlit("endpoint");
        if a.name_of() == b.name_of() {
            assert(a.name_of().len() == b.name_of().len());
            assert(a.name_of()[0] == b.name_of()[0]);
            assert(a.name_of()[1] == b.name_of()[1]);
        }
    }

    /// Reading a canonical name back gives the value it names.
    pub proof fn lemma_name_round_trip(value: EntityKind)
        ensures
            EntityKind::parse_name(value.name_of()) == Some(value),
    {
        EntityKind::lemma_names_distinct(EntityKind::Repository, value);
        EntityKind::lemma_names_distinct(EntityKind::Directory, value);
        EntityKind::lemma_names_distinct(EntityKind::File, value);
        EntityKind::lemma_names_distinct(EntityKind::Module, value);
        EntityKind::lemma_names_distinct(EntityKind::Function, value);
        EntityKind::lemma_names_distinct(EntityKind::Method, value);
        EntityKind::lemma_names_distinct(EntityKind::Class, value);
        EntityKind::lemma_names_distinct(EntityKind::Interface, value);
        EntityKind::lemma_names_distinct(EntityKind::Document, value);
        EntityKind::lemma_names_distinct(EntityKind::Section, value);
        EntityKind::lemma_names_distinct(EntityKind::Unresolved, value);
        EntityKind::lemma_names_distinct(EntityKind::CoverageRun, value);
        EntityKind::lemma_names_distinct(EntityKind::Endpoint, value);
    }

    /// The tag that begins the identifiers of a kind.
    pub open spec fn prefix_of(self) -> Seq<char> {
        match self {
            EntityKind::Repository => "repo"@,
            EntityKind::Directory => "dir"@,
            EntityKind::File => "file"@,
            EntityKind::Module => "mod"@,
            EntityKind::Function => "fn"@,
            EntityKind::Method => "meth"@,
            EntityKind::Class => "class"@,
            EntityKind::Interface => "iface"@,
            EntityKind::Document => "doc"@,
            EntityKind::Section => "sect"@,
            EntityKind::Unresolved => "unres"@,
            EntityKind::CoverageRun => "cov"@,
            EntityKind::Endpoint => "endp"@,
        }
    }

    /// The short tag that begins every identifier of this kind.
    pub fn prefix(self) -> (text: &'static str)
        ensures
            text@ == self.prefix_of(),
    {
        match self {
            EntityKind::Repository => "repo",
            EntityKind::Directory => "dir",
            EntityKind::File => "file",
            EntityKind::Module => "mod",
            EntityKind::Function => "fn",
            EntityKind::Method => "meth",
            EntityKind::Class => "class",
            EntityKind::Interface => "iface",
            EntityKind::Document => "doc",
            EntityKind::Section => "sect",
            EntityKind::Unresolved => "unres",
            EntityKind::CoverageRun => "cov",
            EntityKind::Endpoint => "endp",
        }
    }

    /// Two different kinds never share an identifier tag.
    pub proof fn lemma_prefixes_distinct(a: EntityKind, b: EntityKind)
        ensures
            a.prefix_of() == b.prefix_of() ==> a == b,
    {
        reveal_strlit("repo");
        reveal_strlit("dir");
        reveal_strlit("file");
        reveal_strlit("mod");
        reveal_strlit("fn");
        reveal_strlit("meth");
        reveal_strlit("class");
        reveal_strlit("iface");
        reveal_strlit("doc");
        reveal_strlit("sect");
        reveal_strlit("unres");
        reveal_strlit("cov");
        reveal_strlit("endp");
        if a.prefix_of() == b.prefix_of() {
            assert(a.prefix_of().len() == b.prefix_of().len());
            assert(a.prefix_of()[0] == b.prefix_of()[0]);
            assert(a.prefix_of()[1] == b.prefix_of()[1]);
        }
    }

}

impl core::str::FromStr for EntityKind {
    type Err = NerveError;

    fn from_str(text: &str) -> (parsed: Result<EntityKind, NerveError>)
        ensures
            match parsed {
                Ok(value) => EntityKind::parse_name(text@) == Some(value),
                Err(e) => EntityKind::parse_name(text@) is None
                    && (e matches NerveError::UnknownVocabularyValue { vocabulary, value }
                    && vocabulary@ == "EntityKind"@ && value@ == text@),
            },
    {
        match EntityKind::from_name(text) {
            Some(value) => Ok(value),
            None => Err(NerveError::unknown("EntityKind", text)),
        }
    }
}

/// What sort of entry point an endpoint entity is.
#[derive(Debug, Clone, Copy, PartialEq, Eq, Structural, PartialOrd, Ord, Hash)]
pub enum EndpointKind {
    /// An HTTP route declared by a web framework: a method and a path, as the source declares
    HttpRoute,
}

impl EndpointKind {
    /// Every value, in declaration order.
    pub const ALL: [EndpointKind; 1] = [
        EndpointKind::HttpRoute,
    ];

    /// The canonical name of a value.
    pub open spec fn name_of(self) -> Seq<char> {
        match self {
            EndpointKind::HttpRoute => "http_route"@,
        }
    }

    /// Canonical name, as stored and as carried in responses.
    pub fn as_str(self) -> (text: &'static str)
        ensures
            text@ == self.name_of(),
    {
        match self {
            EndpointKind::HttpRoute => "http_route",
        }
    }

    /// The value whose canonical name is `text`, if any.
    pub open spec fn parse_name(text: Seq<char>) -> Option<EndpointKind> {
        if text == "http_route"@ {
            Some(EndpointKind::HttpRoute)
        } else {
            None
        }
    }

    /// The value whose canonical name is `text`, if any.
    pub fn from_name(text: &str) -> (found: Option<EndpointKind>)
        ensures
            found == EndpointKind::parse_name(text@),
    {
        if str_eq(text, "http_route") {
            return Some(EndpointKind::HttpRoute);
        }
        None
    }

    /// Two different values never share a canonical name.
    pub proof fn lemma_names_distinct(a: EndpointKind, b: EndpointKind)
        ensures
            a.name_of() == b.name_of() ==> a == b,
    {
        reveal_strlit("http_route");
        if a.name_of() == b.name_of() {
            assert(a.name_of().len() == b.name_of().len());
        }
    }

    /// Reading a canonical name back gives the value it names.
    pub proof fn lemma_name_round_trip(value: EndpointKind)
        ensures
            EndpointKind::parse_name(value.name_of()) == Some(value),
    {
        EndpointKind::lemma_names_distinct(EndpointKind::HttpRoute, value);
    }

}

impl core::str::FromStr for EndpointKind {
    type Err = NerveError;

    fn from_str(text: &str) -> (parsed: Result<EndpointKind, NerveError>)
        ensures
            match parsed {
                Ok(value) => EndpointKind::parse_name(text@) == Some(value),
                Err(e) => EndpointKind::parse_name(text@) is None
                    && (e matches NerveError::UnknownVocabularyValue { vocabulary, value }
                    && vocabulary@ == "EndpointKind"@ && value@ == text@),
            },
    {
        match EndpointKind::from_name(text) {
            Some(value) => Ok(value),
            None => Err(NerveError::unknown("EndpointKind", text)),
        }
    }
}

/// Whether, and how, a repository-relative path names an entity of a given kind.
#[derive(Debug, Clone, Copy, PartialEq, Eq, Structural, PartialOrd, Ord, Hash)]
pub enum PathRole {
    /// Not addressable by a repository path.
    NotAddressable,
    /// The entity is the content at that path; `scope_path` holds the path itself.
    Content,
    /// The entity is the container at that path; the path is `scope_path` joined to `name`.
    Container,
}

impl PathRole {
    /// Every value, in declaration order.
    pub const ALL: [PathRole; 3] = [
        PathRole::NotAddressable,
        PathRole::Content,
        PathRole::Container,
    ];

}

/// The relation vocabulary.
#[derive(Debug, Clone, Copy, PartialEq, Eq, Structural, PartialOrd, Ord, Hash)]
pub enum Relation {
    /// Filesystem containment.
    Contains,
    /// Lexical definition.
    Defines,
    /// Module-level import dependency.
    Imports,
    /// Module-level export.
    Exports,
    /// Call relationship. Declared, not yet emitted.
    Calls,
    /// Non-call symbol reference. Declared, not yet emitted.
    References,
    /// Class/interface inheritance. Declared, not yet emitted.
    Extends,
    /// Interface implementation. Declared, not yet emitted.
    Implements,
    /// One document supersedes another.
    Supersedes,
    /// A coverage run executed at least one line inside a symbol.
    Covers,
    /// An [`EntityKind::Endpoint`] declares that a symbol implements it.
    ServedBy,
    /// A tracer observed one symbol call another while a test was executing.
    TestObservedCall,
}

impl Relation {
    /// Every value, in declaration order.
    pub const ALL: [Relation; 12] = [
        Relation::Contains,
        Relation::Defines,
        Relation::Imports,
        Relation::Exports,
        Relation::Calls,
        Relation::References,
        Relation::Extends,
        Relation::Implements,
        Relation::Supersedes,
        Relation::Covers,
        Relation::ServedBy,
        Relation::TestObservedCall,
    ];

    /// The canonical name of a value.
    pub open spec fn name_of(self) -> Seq<char> {
        match self {
            Relation::Contains => "CONTAINS"@,
            Relation::Defines => "DEFINES"@,
            Relation::Imports => "IMPORTS"@,
            Relation::Exports => "EXPORTS"@,
            Relation::Calls => "CALLS"@,
            Relation::References => "REFERENCES"@,
            Relation::Extends => "EXTENDS"@,
            Relation::Implements => "IMPLEMENTS"@,
            Relation::Supersedes => "SUPERSEDES"@,
            Relation::Covers => "COVERS"@,
            Relation::ServedBy => "SERVED_BY"@,
            Relation::TestObservedCall => "TEST_OBSERVED_CALL"@,
        }
    }

    /// Canonical name, as stored and as carried in responses.
    pub fn as_str(self) -> (text: &'static str)
        ensures
            text@ == self.name_of(),
    {
        match self {
            Relation::Contains => "CONTAINS",
            Relation::Defines => "DEFINES",
            Relation::Imports => "IMPORTS",
            Relation::Exports => "EXPORTS",
            Relation::Calls => "CALLS",
            Relation::References => "REFERENCES",
            Relation::Extends => "EXTENDS",
            Relation::Implements => "IMPLEMENTS",
            Relation::Supersedes => "SUPERSEDES",
            Relation::Covers => "COVERS",
            Relation::ServedBy => "SERVED_BY",
            Relation::TestObservedCall => "TEST_OBSERVED_CALL",
        }
    }

    /// The value whose canonical name is `text`, if any.
    pub open spec fn parse_name(text: Seq<char>) -> Option<Relation> {
        if text == "CONTAINS"@ {
            Some(Relation::Contains)
        } else if text == "DEFINES"@ {
            Some(Relation::Defines)
        } else if text == "IMPORTS"@ {
            Some(Relation::Imports)
        } else if text == "EXPORTS"@ {
            Some(Relation::Exports)
        } else if text == "CALLS"@ {
            Some(Relation::Calls)
        } else if text == "REFERENCES"@ {
            Some(Relation::References)
        } else if text == "EXTENDS"@ {
            Some(Relation::Extends)
        } else if text == "IMPLEMENTS"@ {
            Some(Relation::Implements)
        } else if text == "SUPERSEDES"@ {
            Some(Relation::Supersedes)
        } else if text == "COVERS"@ {
            Some(Relation::Covers)
        } else if text == "SERVED_BY"@ {
            Some(Relation::ServedBy)
        } else if text == "TEST_OBSERVED_CALL"@ {
            Some(Relation::TestObservedCall)
        } else {
            None
        }
    }

    /// The value whose canonical name is `text`, if any.
    pub fn from_name(text: &str) -> (found: Option<Relation>)
        ensures
            found == Relation::parse_name(text@),
    {
        if str_eq(text, "CONTAINS") {
            return Some(Relation::Contains);
        }
        if str_eq(text, "DEFINES") {
            return Some(Relation::Defines);
        }
        if str_eq(text, "IMPORTS") {
            return Some(Relation::Imports);
        }
        if str_eq(text, "EXPORTS") {
            return Some(Relation::Exports);
        }
        if str_eq(text, "CALLS") {
            return Some(Relation::Calls);
        }
        if str_eq(text, "REFERENCES") {
            return Some(Relation::References);
        }
        if str_eq(text, "EXTENDS") {
            return Some(Relation::Extends);
        }
        if str_eq(text, "IMPLEMENTS") {
            return Some(Relation::Implements);
        }
        if str_eq(text, "SUPERSEDES") {
            return Some(Relation::Supersedes);
        }
        if str_eq(text, "COVERS") {
            return Some(Relation::Covers);
        }
        if str_eq(text, "SERVED_BY") {
            return Some(Relation::ServedBy);
        }
        if str_eq(text, "TEST_OBSERVED_CALL") {
            return Some(Relation::TestObservedCall);
        }
        None
    }

    /// Two different values never share a canonical name.
    pub proof fn lemma_names_distinct(a: Relation, b: Relation)
        ensures
            a.name_of() == b.name_of() ==> a == b,
    {
        reveal_strlit("CONTAINS");
        reveal_strlit("DEFINES");
        reveal_strlit("IMPORTS");
        reveal_strlit("EXPORTS");
        reveal_strlit("CALLS");
        reveal_strlit("REFERENCES");
        reveal_strlit("EXTENDS");
        reveal_strlit("IMPLEMENTS");
        reveal_strlit("SUPERSEDES");
        reveal_strlit("COVERS");
        reveal_strlit("SERVED_BY");
        reveal_strlit("TEST_OBSERVED_CALL");
        if a.name_of() == b.name_of() {
            assert(a.name_of().len() == b.name_of().len());
            assert(a.name_of()[0] == b.name_of()[0]);
            assert(a.name_of()[2] == b.name_of()[2]);
        }
    }

    /// Reading a canonical name back gives the value it names.
    pub proof fn lemma_name_round_trip(value: Relation)
        ensures
            Relation::parse_name(value.name_of()) == Some(value),
    {
        Relation::lemma_names_distinct(Relation::Contains, value);
        Relation::lemma_names_distinct(Relation::Defines, value);
        Relation::lemma_names_distinct(Relation::Imports, value);
        Relation::lemma_names_distinct(Relation::Exports, value);
        Relation::lemma_names_distinct(Relation::Calls, value);
        Relation::lemma_names_distinct(Relation::References, value);
        Relation::lemma_names_distinct(Relation::Extends, value);
        Relation::lemma_names_distinct(Relation::Implements, value);
        Relation::lemma_names_distinct(Relation::Supersedes, value);
        Relation::lemma_names_distinct(Relation::Covers, value);
        Relation::lemma_names_distinct(Relation::ServedBy, value);
        Relation::lemma_names_distinct(Relation::TestObservedCall, value);
    }

}

impl core::str::FromStr for Relation {
    type Err = NerveError;

    fn from_str(text: &str) -> (parsed: Result<Relation, NerveError>)
        ensures
            match parsed {
                Ok(value) => Relation::parse_name(text@) == Some(value),
                Err(e) => Relation::parse_name(text@) is None
                    && (e matches NerveError::UnknownVocabularyValue { vocabulary, value }
                    && vocabulary@ == "Relation"@ && value@ == text@),
            },
    {
        match Relation::from_name(text) {
            Some(value) => Ok(value),
            None => Err(NerveError::unknown("Relation", text)),
        }
    }
}

/// What an unresolved entity stands in for. A domain discriminator, not decoration.
#[derive(Debug, Clone, Copy, PartialEq, Eq, Structural, PartialOrd, Ord, Hash)]
pub enum UnresolvedCategory {
    /// A module specifier that named no indexed module.
    Module,
    /// A value or type name that no binding in scope could resolve.
    Value,
    /// A document link destination — or its `#L<n>` anchor — that named nothing indexed.
    DocumentLink,
    /// A supersession marker in an ADR that named no single indexed ADR.
    DocumentSupersedes,
}

impl UnresolvedCategory {
    /// Every value, in declaration order.
    pub const ALL: [UnresolvedCategory; 4] = [
        UnresolvedCategory::Module,
        UnresolvedCategory::Value,
        UnresolvedCategory::DocumentLink,
        UnresolvedCategory::DocumentSupersedes,
    ];

    /// The canonical name of a value.
    pub open spec fn name_of(self) -> Seq<char> {
        match self {
            UnresolvedCategory::Module => "module"@,
            UnresolvedCategory::Value => "value"@,
            UnresolvedCategory::DocumentLink => "document_link"@,
            UnresolvedCategory::DocumentSupersedes => "document_supersedes"@,
        }
    }

    /// Canonical name, as stored and as carried in responses.
    pub fn as_str(self) -> (text: &'static str)
        ensures
            text@ == self.name_of(),
    {
        match self {
            UnresolvedCategory::Module => "module",
            UnresolvedCategory::Value => "value",
            UnresolvedCategory::DocumentLink => "document_link",
            UnresolvedCategory::DocumentSupersedes => "document_supersedes",
        }
    }

    /// The value whose canonical name is `text`, if any.
    pub open spec fn parse_name(text: Seq<char>) -> Option<UnresolvedCategory> {
        if text == "module"@ {
            Some(UnresolvedCategory::Module)
        } else if text == "value"@ {
            Some(UnresolvedCategory::Value)
        } else if text == "document_link"@ {
            Some(UnresolvedCategory::DocumentLink)
        } else if text == "document_supersedes"@ {
            Some(UnresolvedCategory::DocumentSupersedes)
        } else {
            None
        }
    }

    /// The value whose canonical name is `text`, if any.
    pub fn from_name(text: &str) -> (found: Option<UnresolvedCategory>)
        ensures
            found == UnresolvedCategory::parse_name(text@),
    {
        if str_eq(text, "module") {
            return Some(UnresolvedCategory::Module);
        }
        if str_eq(text, "value") {
            return Some(UnresolvedCategory::Value);
        }
        if str_eq(text, "document_link") {
            return Some(UnresolvedCategory::DocumentLink);
        }
        if str_eq(text, "document_supersedes") {
            return Some(UnresolvedCategory::DocumentSupersedes);
        }
        None
    }

    /// Two different values never share a canonical name.
    pub proof fn lemma_names_distinct(a: UnresolvedCategory, b: UnresolvedCategory)
        ensures
            a.name_of() == b.name_of() ==> a == b,
    {
        reveal_strlit("module");
        reveal_strlit("value");
        reveal_strlit("document_link");
        reveal_strlit("document_supersedes");
        if a.name_of() == b.name_of() {
            assert(a.name_of().len() == b.name_of().len());
        }
    }

    /// Reading a canonical name back gives the value it names.
    pub proof fn lemma_name_round_trip(value: UnresolvedCategory)
        ensures
            UnresolvedCategory::parse_name(value.name_of()) == Some(value),
    {
        UnresolvedCategory::lemma_names_distinct(UnresolvedCategory::Module, value);
        UnresolvedCategory::lemma_names_distinct(UnresolvedCategory::Value, value);
        UnresolvedCategory::lemma_names_distinct(UnresolvedCategory::DocumentLink, value);
        UnresolvedCategory::lemma_names_distinct(UnresolvedCategory::DocumentSupersedes, value);
    }

}

impl core::str::FromStr for UnresolvedCategory {
    type Err = NerveError;

    fn from_str(text: &str) -> (parsed: Result<UnresolvedCategory, NerveError>)
        ensures
            match parsed {
                Ok(value) => UnresolvedCategory::parse_name(text@) == Some(value),
                Err(e) => UnresolvedCategory::parse_name(text@) is None
                    && (e matches NerveError::UnknownVocabularyValue { vocabulary, value }
                    && vocabulary@ == "UnresolvedCategory"@ && value@ == text@),
            },
    {
        match UnresolvedCategory::from_name(text) {
            Some(value) => Ok(value),
            None => Err(NerveError::unknown("UnresolvedCategory", text)),
        }
    }
}

/// How a piece of evidence was obtained. The declaration order is a stable layout, not a truth ranking.
#[derive(Debug, Clone, Copy, PartialEq, Eq, Structural, PartialOrd, Ord, Hash)]
pub enum EvidenceSourceType {
    /// The syntax tree literally contains this relationship.
    AstDirect,
    /// Resolved through import/module resolution.
    AstResolved,
    /// Name-based or otherwise ambiguous match.
    AstHeuristic,
    /// A type checker resolved it.
    TypeResolved,
    /// A deterministic framework rule inferred it.
    FrameworkRule,
    /// A test executed this symbol. Not a call relationship.
    TestCoverage,
    /// A call observed during a test, via instrumentation.
    TestCallTrace,
    /// A call observed at runtime.
    RuntimeCallTrace,
    /// A document asserts it.
    DocumentStated,
    /// A human confirmed it.
    HumanConfirmed,
    /// A language model suggested it.
    LlmDerived,
    /// The filesystem contains this. Derived from a directory walk, never from file content.
    FilesystemObserved,
}

impl EvidenceSourceType {
    /// Every value, in declaration order.
    pub const ALL: [EvidenceSourceType; 12] = [
        EvidenceSourceType::AstDirect,
        EvidenceSourceType::AstResolved,
        EvidenceSourceType::AstHeuristic,
        EvidenceSourceType::TypeResolved,
        EvidenceSourceType::FrameworkRule,
        EvidenceSourceType::TestCoverage,
        EvidenceSourceType::TestCallTrace,
        EvidenceSourceType::RuntimeCallTrace,
        EvidenceSourceType::DocumentStated,
        EvidenceSourceType::HumanConfirmed,
        EvidenceSourceType::LlmDerived,
        EvidenceSourceType::FilesystemObserved,
    ];

    /// The canonical name of a value.
    pub open spec fn name_of(self) -> Seq<char> {
        match self {
            EvidenceSourceType::AstDirect => "AST_DIRECT"@,
            EvidenceSourceType::AstResolved => "AST_RESOLVED"@,
            EvidenceSourceType::AstHeuristic => "AST_HEURISTIC"@,
            EvidenceSourceType::TypeResolved => "TYPE_RESOLVED"@,
            EvidenceSourceType::FrameworkRule => "FRAMEWORK_RULE"@,
            EvidenceSourceType::TestCoverage => "TEST_COVERAGE"@,
            EvidenceSourceType::TestCallTrace => "TEST_CALL_TRACE"@,
            EvidenceSourceType::RuntimeCallTrace => "RUNTIME_CALL_TRACE"@,
            EvidenceSourceType::DocumentStated => "DOCUMENT_STATED"@,
            EvidenceSourceType::HumanConfirmed => "HUMAN_CONFIRMED"@,
            EvidenceSourceType::LlmDerived => "LLM_DERIVED"@,
            EvidenceSourceType::FilesystemObserved => "FILESYSTEM_OBSERVED"@,
        }
    }

    /// Canonical name, as stored and as carried in responses.
    pub fn as_str(self) -> (text: &'static str)
        ensures
            text@ == self.name_of(),
    {
        match self {
            EvidenceSourceType::AstDirect => "AST_DIRECT",
            EvidenceSourceType::AstResolved => "AST_RESOLVED",
            EvidenceSourceType::AstHeuristic => "AST_HEURISTIC",
            EvidenceSourceType::TypeResolved => "TYPE_RESOLVED",
            EvidenceSourceType::FrameworkRule => "FRAMEWORK_RULE",
            EvidenceSourceType::TestCoverage => "TEST_COVERAGE",
            EvidenceSourceType::TestCallTrace => "TEST_CALL_TRACE",
            EvidenceSourceType::RuntimeCallTrace => "RUNTIME_CALL_TRACE",
            EvidenceSourceType::DocumentStated => "DOCUMENT_STATED",
            EvidenceSourceType::HumanConfirmed => "HUMAN_CONFIRMED",
            EvidenceSourceType::LlmDerived => "LLM_DERIVED",
            EvidenceSourceType::FilesystemObserved => "FILESYSTEM_OBSERVED",
        }
    }

    /// The value whose canonical name is `text`, if any.
    pub open spec fn parse_name(text: Seq<char>) -> Option<EvidenceSourceType> {
        if text == "AST_DIRECT"@ {
            Some(EvidenceSourceType::AstDirect)
        } else if text == "AST_RESOLVED"@ {
            Some(EvidenceSourceType::AstResolved)
        } else if text == "AST_HEURISTIC"@ {
            Some(EvidenceSourceType::AstHeuristic)
        } else if text == "TYPE_RESOLVED"@ {
            Some(EvidenceSourceType::TypeResolved)
        } else if text == "FRAMEWORK_RULE"@ {
            Some(EvidenceSourceType::FrameworkRule)
        } else if text == "TEST_COVERAGE"@ {
            Some(EvidenceSourceType::TestCoverage)
        } else if text == "TEST_CALL_TRACE"@ {
            Some(EvidenceSourceType::TestCallTrace)
        } else if text == "RUNTIME_CALL_TRACE"@ {
            Some(EvidenceSourceType::RuntimeCallTrace)
        } else if text == "DOCUMENT_STATED"@ {
            Some(EvidenceSourceType::DocumentStated)
        } else if text == "HUMAN_CONFIRMED"@ {
            Some(EvidenceSourceType::HumanConfirmed)
        } else if text == "LLM_DERIVED"@ {
            Some(EvidenceSourceType::LlmDerived)
        } else if text == "FILESYSTEM_OBSERVED"@ {
            Some(EvidenceSourceType::FilesystemObserved)
        } else {
            None
        }
    }

    /// The value whose canonical name is `text`, if any.
    pub fn from_name(text: &str) -> (found: Option<EvidenceSourceType>)
        ensures
            found == EvidenceSourceType::parse_name(text@),
    {
        if str_eq(text, "AST_DIRECT") {
            return Some(EvidenceSourceType::AstDirect);
        }
        if str_eq(text, "AST_RESOLVED") {
            return Some(EvidenceSourceType::AstResolved);
        }
        if str_eq(text, "AST_HEURISTIC") {
            return Some(EvidenceSourceType::AstHeuristic);
        }
        if str_eq(text, "TYPE_RESOLVED") {
            return Some(EvidenceSourceType::TypeResolved);
        }
        if str_eq(text, "FRAMEWORK_RULE") {
            return Some(EvidenceSourceType::FrameworkRule);
        }
        if str_eq(text, "TEST_COVERAGE") {
            return Some(EvidenceSourceType::TestCoverage);
        }
        if str_eq(text, "TEST_CALL_TRACE") {
            return Some(EvidenceSourceType::TestCallTrace);
        }
        if str_eq(text, "RUNTIME_CALL_TRACE") {
            return Some(EvidenceSourceType::RuntimeCallTrace);
        }
        if str_eq(text, "DOCUMENT_STATED") {
            return Some(EvidenceSourceType::DocumentStated);
        }
        if str_eq(text, "HUMAN_CONFIRMED") {
            return Some(EvidenceSourceType::HumanConfirmed);
        }
        if str_eq(text, "LLM_DERIVED") {
            return Some(EvidenceSourceType::LlmDerived);
        }
        if str_eq(text, "FILESYSTEM_OBSERVED") {
            return Some(EvidenceSourceType::FilesystemObserved);
        }
        None
    }

    /// Two different values never share a canonical name.
    pub proof fn lemma_names_distinct(a: EvidenceSourceType, b: EvidenceSourceType)
        ensures
            a.name_of() == b.name_of() ==> a == b,
    {
        reveal_strlit("AST_DIRECT");
        reveal_strlit("AST_RESOLVED");
        reveal_strlit("AST_HEURISTIC");
        reveal_strlit("TYPE_RESOLVED");
        reveal_strlit("FRAMEWORK_RULE");
        reveal_strlit("TEST_COVERAGE");
        reveal_strlit("TEST_CALL_TRACE");
        reveal_strlit("RUNTIME_CALL_TRACE");
        reveal_strlit("DOCUMENT_STATED");
        reveal_strlit("HUMAN_CONFIRMED");
        reveal_strlit("LLM_DERIVED");
        reveal_strlit("FILESYSTEM_OBSERVED");
        if a.name_of() == b.name_of() {
            assert(a.name_of().len() == b.name_of().len());
            assert(a.name_of()[0] == b.name_of()[0]);
            assert(a.name_of()[1] == b.name_of()[1]);
        }
    }

    /// Reading a canonical name back gives the value it names.
    pub proof fn lemma_name_round_trip(value: EvidenceSourceType)
        ensures
            EvidenceSourceType::parse_name(value.name_of()) == Some(value),
    {
        EvidenceSourceType::lemma_names_distinct(EvidenceSourceType::AstDirect, value);
        EvidenceSourceType::lemma_names_distinct(EvidenceSourceType::AstResolved, value);
        EvidenceSourceType::lemma_names_distinct(EvidenceSourceType::AstHeuristic, value);
        EvidenceSourceType::lemma_names_distinct(EvidenceSourceType::TypeResolved, value);
        EvidenceSourceType::lemma_names_distinct(EvidenceSourceType::FrameworkRule, value);
        EvidenceSourceType::lemma_names_distinct(EvidenceSourceType::TestCoverage, value);
        EvidenceSourceType::lemma_names_distinct(EvidenceSourceType::TestCallTrace, value);
        EvidenceSourceType::lemma_names_distinct(EvidenceSourceType::RuntimeCallTrace, value);
        EvidenceSourceType::lemma_names_distinct(EvidenceSourceType::DocumentStated, value);
        EvidenceSourceType::lemma_names_distinct(EvidenceSourceType::HumanConfirmed, value);
        EvidenceSourceType::lemma_names_distinct(EvidenceSourceType::LlmDerived, value);
        EvidenceSourceType::lemma_names_distinct(EvidenceSourceType::FilesystemObserved, value);
    }

}

impl core::str::FromStr for EvidenceSourceType {
    type Err = NerveError;

    fn from_str(text: &str) -> (parsed: Result<EvidenceSourceType, NerveError>)
        ensures
            match parsed {
                Ok(value) => EvidenceSourceType::parse_name(text@) == Some(value),
                Err(e) => EvidenceSourceType::parse_name(text@) is None
                    && (e matches NerveError::UnknownVocabularyValue { vocabulary, value }
                    && vocabulary@ == "EvidenceSourceType"@ && value@ == text@),
            },
    {
        match EvidenceSourceType::from_name(text) {
            Some(value) => Ok(value),
            None => Err(NerveError::unknown("EvidenceSourceType", text)),
        }
    }
}

/// How directly the evidence states the relationship.
#[derive(Debug, Clone, Copy, PartialEq, Eq, Structural, PartialOrd, Ord, Hash)]
pub enum Directness {
    /// The artifact literally states it.
    Direct,
    /// Derived through a resolution step (for example module resolution).
    Resolved,
    /// A rule concluded it.
    Inferred,
}

impl Directness {
    /// Every value, in declaration order.
    pub const ALL: [Directness; 3] = [
        Directness::Direct,
        Directness::Resolved,
        Directness::Inferred,
    ];

    /// The canonical name of a value.
    pub open spec fn name_of(self) -> Seq<char> {
        match self {
            Directness::Direct => "DIRECT"@,
            Directness::Resolved => "RESOLVED"@,
            Directness::Inferred => "INFERRED"@,
        }
    }

    /// Canonical name, as stored and as carried in responses.
    pub fn as_str(self) -> (text: &'static str)
        ensures
            text@ == self.name_of(),
    {
        match self {
            Directness::Direct => "DIRECT",
            Directness::Resolved => "RESOLVED",
            Directness::Inferred => "INFERRED",
        }
    }

    /// The value whose canonical name is `text`, if any.
    pub open spec fn parse_name(text: Seq<char>) -> Option<Directness> {
        if text == "DIRECT"@ {
            Some(Directness::Direct)
        } else if text == "RESOLVED"@ {
            Some(Directness::Resolved)
        } else if text == "INFERRED"@ {
            Some(Directness::Inferred)
        } else {
            None
        }
    }

    /// The value whose canonical name is `text`, if any.
    pub fn from_name(text: &str) -> (found: Option<Directness>)
        ensures
            found == Directness::parse_name(text@),
    {
        if str_eq(text, "DIRECT") {
            return Some(Directness::Direct);
        }
        if str_eq(text, "RESOLVED") {
            return Some(Directness::Resolved);
        }
        if str_eq(text, "INFERRED") {
            return Some(Directness::Inferred);
        }
        None
    }

    /// Two different values never share a canonical name.
    pub proof fn lemma_names_distinct(a: Directness, b: Directness)
        ensures
            a.name_of() == b.name_of() ==> a == b,
    {
        reveal_strlit("DIRECT");
        reveal_strlit("RESOLVED");
        reveal_strlit("INFERRED");
        if a.name_of() == b.name_of() {
            assert(a.name_of().len() == b.name_of().len());
            assert(a.name_of()[0] == b.name_of()[0]);
        }
    }

    /// Reading a canonical name back gives the value it names.
    pub proof fn lemma_name_round_trip(value: Directness)
        ensures
            Directness::parse_name(value.name_of()) == Some(value),
    {
        Directness::lemma_names_distinct(Directness::Direct, value);
        Directness::lemma_names_distinct(Directness::Resolved, value);
        Directness::lemma_names_distinct(Directness::Inferred, value);
    }

}

impl core::str::FromStr for Directness {
    type Err = NerveError;

    fn from_str(text: &str) -> (parsed: Result<Directness, NerveError>)
        ensures
            match parsed {
                Ok(value) => Directness::parse_name(text@) == Some(value),
                Err(e) => Directness::parse_name(text@) is None
                    && (e matches NerveError::UnknownVocabularyValue { vocabulary, value }
                    && vocabulary@ == "Directness"@ && value@ == text@),
            },
    {
        match Directness::from_name(text) {
            Some(value) => Ok(value),
            None => Err(NerveError::unknown("Directness", text)),
        }
    }
}

/// Derived status of an assertion in a repository state.
#[derive(Debug, Clone, Copy, PartialEq, Eq, Structural, PartialOrd, Ord, Hash)]
pub enum AssertionStatus {
    /// At least one observation supports it and its target resolved.
    Supported,
    /// Observations disagree. Requires multiple extractors; not yet reachable.
    Contradicted,
    /// Last observed in an older repository state. Requires incremental indexing.
    Stale,
    /// Supported, but the target is an `Unresolved` entity.
    Unresolved,
    /// Explicitly retracted. Not yet reachable.
    Deleted,
}

impl AssertionStatus {
    /// Every value, in declaration order.
    pub const ALL: [AssertionStatus; 5] = [
        AssertionStatus::Supported,
        AssertionStatus::Contradicted,
        AssertionStatus::Stale,
        AssertionStatus::Unresolved,
        AssertionStatus::Deleted,
    ];

    /// The canonical name of a value.
    pub open spec fn name_of(self) -> Seq<char> {
        match self {
            AssertionStatus::Supported => "SUPPORTED"@,
            AssertionStatus::Contradicted => "CONTRADICTED"@,
            AssertionStatus::Stale => "STALE"@,
            AssertionStatus::Unresolved => "UNRESOLVED"@,
            AssertionStatus::Deleted => "DELETED"@,
        }
    }

    /// Canonical name, as stored and as carried in responses.
    pub fn as_str(self) -> (text: &'static str)
        ensures
            text@ == self.name_of(),
    {
        match self {
            AssertionStatus::Supported => "SUPPORTED",
            AssertionStatus::Contradicted => "CONTRADICTED",
            AssertionStatus::Stale => "STALE",
            AssertionStatus::Unresolved => "UNRESOLVED",
            AssertionStatus::Deleted => "DELETED",
        }
    }

    /// The value whose canonical name is `text`, if any.
    pub open spec fn parse_name(text: Seq<char>) -> Option<AssertionStatus> {
        if text == "SUPPORTED"@ {
            Some(AssertionStatus::Supported)
        } else if text == "CONTRADICTED"@ {
            Some(AssertionStatus::Contradicted)
        } else if text == "STALE"@ {
            Some(AssertionStatus::Stale)
        } else if text == "UNRESOLVED"@ {
            Some(AssertionStatus::Unresolved)
        } else if text == "DELETED"@ {
            Some(AssertionStatus::Deleted)
        } else {
            None
        }
    }

    /// The value whose canonical name is `text`, if any.
    pub fn from_name(text: &str) -> (found: Option<AssertionStatus>)
        ensures
            found == AssertionStatus::parse_name(text@),
    {
        if str_eq(text, "SUPPORTED") {
            return Some(AssertionStatus::Supported);
        }
        if str_eq(text, "CONTRADICTED") {
            return Some(AssertionStatus::Contradicted);
        }
        if str_eq(text, "STALE") {
            return Some(AssertionStatus::Stale);
        }
        if str_eq(text, "UNRESOLVED") {
            return Some(AssertionStatus::Unresolved);
        }
        if str_eq(text, "DELETED") {
            return Some(AssertionStatus::Deleted);
        }
        None
    }

    /// Two different values never share a canonical name.
    pub proof fn lemma_names_distinct(a: AssertionStatus, b: AssertionStatus)
        ensures
            a.name_of() == b.name_of() ==> a == b,
    {
        reveal_strlit("SUPPORTED");
        reveal_strlit("CONTRADICTED");
        reveal_strlit("STALE");
        reveal_strlit("UNRESOLVED");
        reveal_strlit("DELETED");
        if a.name_of() == b.name_of() {
            assert(a.name_of().len() == b.name_of().len());
        }
    }

    /// Reading a canonical name back gives the value it names.
    pub proof fn lemma_name_round_trip(value: AssertionStatus)
        ensures
            AssertionStatus::parse_name(value.name_of()) == Some(value),
    {
        AssertionStatus::lemma_names_distinct(AssertionStatus::Supported, value);
        AssertionStatus::lemma_names_distinct(AssertionStatus::Contradicted, value);
        AssertionStatus::lemma_names_distinct(AssertionStatus::Stale, value);
        AssertionStatus::lemma_names_distinct(AssertionStatus::Unresolved, value);
        AssertionStatus::lemma_names_distinct(AssertionStatus::Deleted, value);
    }

}

impl core::str::FromStr for AssertionStatus {
    type Err = NerveError;

    fn from_str(text: &str) -> (parsed: Result<AssertionStatus, NerveError>)
        ensures
            match parsed {
                Ok(value) => AssertionStatus::parse_name(text@) == Some(value),
                Err(e) => AssertionStatus::parse_name(text@) is None
                    && (e matches NerveError::UnknownVocabularyValue { vocabulary, value }
                    && vocabulary@ == "AssertionStatus"@ && value@ == text@),
            },
    {
        match AssertionStatus::from_name(text) {
            Some(value) => Ok(value),
            None => Err(NerveError::unknown("AssertionStatus", text)),
        }
    }
}

/// What one commit did to one path, as a tree diff against a single parent states it.
#[derive(Debug, Clone, Copy, PartialEq, Eq, Structural, PartialOrd, Ord, Hash)]
pub enum ChangeKind {
    /// The path is in this commit's tree and not in the parent's.
    Added,
    /// The path is in both trees with different content.
    Modified,
    /// The path is in the parent's tree and not in this commit's.
    Deleted,
    /// The path is in both trees with the same content and a different file mode.
    ModeChanged,
}

impl ChangeKind {
    /// Every value, in declaration order.
    pub const ALL: [ChangeKind; 4] = [
        ChangeKind::Added,
        ChangeKind::Modified,
        ChangeKind::Deleted,
        ChangeKind::ModeChanged,
    ];

    /// The canonical name of a value.
    pub open spec fn name_of(self) -> Seq<char> {
        match self {
            ChangeKind::Added => "added"@,
            ChangeKind::Modified => "modified"@,
            ChangeKind::Deleted => "deleted"@,
            ChangeKind::ModeChanged => "mode_changed"@,
        }
    }

    /// Canonical name, as stored and as carried in responses.
    pub fn as_str(self) -> (text: &'static str)
        ensures
            text@ == self.name_of(),
    {
        match self {
            ChangeKind::Added => "added",
            ChangeKind::Modified => "modified",
            ChangeKind::Deleted => "deleted",
            ChangeKind::ModeChanged => "mode_changed",
        }
    }

    /// The value whose canonical name is `text`, if any.
    pub open spec fn parse_name(text: Seq<char>) -> Option<ChangeKind> {
        if text == "added"@ {
            Some(ChangeKind::Added)
        } else if text == "modified"@ {
            Some(ChangeKind::Modified)
        } else if text == "deleted"@ {
            Some(ChangeKind::Deleted)
        } else if text == "mode_changed"@ {
            Some(ChangeKind::ModeChanged)
        } else {
            None
        }
    }

    /// The value whose canonical name is `text`, if any.
    pub fn from_name(text: &str) -> (found: Option<ChangeKind>)
        ensures
            found == ChangeKind::parse_name(text@),
    {
        if str_eq(text, "added") {
            return Some(ChangeKind::Added);
        }
        if str_eq(text, "modified") {
            return Some(ChangeKind::Modified);
        }
        if str_eq(text, "deleted") {
            return Some(ChangeKind::Deleted);
        }
        if str_eq(text, "mode_changed") {
            return Some(ChangeKind::ModeChanged);
        }
        None
    }

    /// Two different values never share a canonical name.
    pub proof fn lemma_names_distinct(a: ChangeKind, b: ChangeKind)
        ensures
            a.name_of() == b.name_of() ==> a == b,
    {
        reveal_strlit("added");
        reveal_strlit("modified");
        reveal_strlit("deleted");
        reveal_strlit("mode_changed");
        if a.name_of() == b.name_of() {
            assert(a.name_of().len() == b.name_of().len());
        }
    }

    /// Reading a canonical name back gives the value it names.
    pub proof fn lemma_name_round_trip(value: ChangeKind)
        ensures
            ChangeKind::parse_name(value.name_of()) == Some(value),
    {
        ChangeKind::lemma_names_distinct(ChangeKind::Added, value);
        ChangeKind::lemma_names_distinct(ChangeKind::Modified, value);
        ChangeKind::lemma_names_distinct(ChangeKind::Deleted, value);
        ChangeKind::lemma_names_distinct(ChangeKind::ModeChanged, value);
    }

}

impl core::str::FromStr for ChangeKind {
    type Err = NerveError;

    fn from_str(text: &str) -> (parsed: Result<ChangeKind, NerveError>)
        ensures
            match parsed {
                Ok(value) => ChangeKind::parse_name(text@) == Some(value),
                Err(e) => ChangeKind::parse_name(text@) is None
                    && (e matches NerveError::UnknownVocabularyValue { vocabulary, value }
                    && vocabulary@ == "ChangeKind"@ && value@ == text@),
            },
    {
        match ChangeKind::from_name(text) {
            Some(value) => Ok(value),
            None => Err(NerveError::unknown("ChangeKind", text)),
        }
    }
}

/// Why a commit has the parents it has, and, when none is visible, which reason that is.
#[derive(Debug, Clone, Copy, PartialEq, Eq, Structural, PartialOrd, Ord, Hash)]
pub enum ParentCompleteness {
    /// No parents in the commit object, **and** not a shallow boundary. This is the beginning.
    Root,
    /// Listed in `.git/shallow`. The commit object may name parents; they are absent by
    ShallowBoundary,
    /// Has parents, all present in the object store.
    ParentsAvailable,
    /// Has parents, at least one absent, and the shallow declaration was read cleanly and does
    ParentsMissing,
    /// Has parents, at least one absent, and Nerve **could not establish** whether that absence
    ParentsUnverifiable,
}

impl ParentCompleteness {
    /// Every value, in declaration order.
    pub const ALL: [ParentCompleteness; 5] = [
        ParentCompleteness::Root,
        ParentCompleteness::ShallowBoundary,
        ParentCompleteness::ParentsAvailable,
        ParentCompleteness::ParentsMissing,
        ParentCompleteness::ParentsUnverifiable,
    ];

    /// The canonical name of a value.
    pub open spec fn name_of(self) -> Seq<char> {
        match self {
            ParentCompleteness::Root => "root"@,
            ParentCompleteness::ShallowBoundary => "shallow_boundary"@,
            ParentCompleteness::ParentsAvailable => "parents_available"@,
            ParentCompleteness::ParentsMissing => "parents_missing"@,
            ParentCompleteness::ParentsUnverifiable => "parents_unverifiable"@,
        }
    }

    /// Canonical name, as stored and as carried in responses.
    pub fn as_str(self) -> (text: &'static str)
        ensures
            text@ == self.name_of(),
    {
        match self {
            ParentCompleteness::Root => "root",
            ParentCompleteness::ShallowBoundary => "shallow_boundary",
            ParentCompleteness::ParentsAvailable => "parents_available",
            ParentCompleteness::ParentsMissing => "parents_missing",
            ParentCompleteness::ParentsUnverifiable => "parents_unverifiable",
        }
    }

    /// The value whose canonical name is `text`, if any.
    pub open spec fn parse_name(text: Seq<char>) -> Option<ParentCompleteness> {
        if text == "root"@ {
            Some(ParentCompleteness::Root)
        } else if text == "shallow_boundary"@ {
            Some(ParentCompleteness::ShallowBoundary)
        } else if text == "parents_available"@ {
            Some(ParentCompleteness::ParentsAvailable)
        } else if text == "parents_missing"@ {
            Some(ParentCompleteness::ParentsMissing)
        } else if text == "parents_unverifiable"@ {
            Some(ParentCompleteness::ParentsUnverifiable)
        } else {
            None
        }
    }

    /// The value whose canonical name is `text`, if any.
    pub fn from_name(text: &str) -> (found: Option<ParentCompleteness>)
        ensures
            found == ParentCompleteness::parse_name(text@),
    {
        if str_eq(text, "root") {
            return Some(ParentCompleteness::Root);
        }
        if str_eq(text, "shallow_boundary") {
            return Some(ParentCompleteness::ShallowBoundary);
        }
        if str_eq(text, "parents_available") {
            return Some(ParentCompleteness::ParentsAvailable);
        }
        if str_eq(text, "parents_missing") {
            return Some(ParentCompleteness::ParentsMissing);
        }
        if str_eq(text, "parents_unverifiable") {
            return Some(ParentCompleteness::ParentsUnverifiable);
        }
        None
    }

    /// Two different values never share a canonical name.
    pub proof fn lemma_names_distinct(a: ParentCompleteness, b: ParentCompleteness)
        ensures
            a.name_of() == b.name_of() ==> a == b,
    {
        reveal_strlit("root");
        reveal_strlit("shallow_boundary");
        reveal_strlit("parents_available");
        reveal_strlit("parents_missing");
        reveal_strlit("parents_unverifiable");
        if a.name_of() == b.name_of() {
            assert(a.name_of().len() == b.name_of().len());
        }
    }

    /// Reading a canonical name back gives the value it names.
    pub proof fn lemma_name_round_trip(value: ParentCompleteness)
        ensures
            ParentCompleteness::parse_name(value.name_of()) == Some(value),
    {
        ParentCompleteness::lemma_names_distinct(ParentCompleteness::Root, value);
        ParentCompleteness::lemma_names_distinct(ParentCompleteness::ShallowBoundary, value);
        ParentCompleteness::lemma_names_distinct(ParentCompleteness::ParentsAvailable, value);
        ParentCompleteness::lemma_names_distinct(ParentCompleteness::ParentsMissing, value);
        ParentCompleteness::lemma_names_distinct(ParentCompleteness::ParentsUnverifiable, value);
    }

    /// The sentence that explains a value.
    pub open spec fn note_of(self) -> Seq<char> {
        match self {
            ParentCompleteness::Root => "no parents in the commit object and no shallow boundary, so the project's \
                history begins here"@,
            ParentCompleteness::ShallowBoundary => "earliest commit visible in this checkout; history before this point is \
                unavailable to this repository"@,
            ParentCompleteness::ParentsAvailable => "every parent this commit names is present"@,
            ParentCompleteness::ParentsMissing => "a parent this commit names is absent and was not declared absent, a fault in \
                this repository rather than a shallow boundary; history before this point is \
                unavailable to this repository"@,
            ParentCompleteness::ParentsUnverifiable => "a parent this commit names is absent and Nerve could not establish whether the \
                absence was declared, so neither shallow nor corrupt may be asserted"@,
        }
    }

    /// What the value means, in words.
    pub fn note(self) -> (text: &'static str)
        ensures
            text@ == self.note_of(),
    {
        match self {
            ParentCompleteness::Root => "no parents in the commit object and no shallow boundary, so the project's \
                history begins here",
            ParentCompleteness::ShallowBoundary => "earliest commit visible in this checkout; history before this point is \
                unavailable to this repository",
            ParentCompleteness::ParentsAvailable => "every parent this commit names is present",
            ParentCompleteness::ParentsMissing => "a parent this commit names is absent and was not declared absent, a fault in \
                this repository rather than a shallow boundary; history before this point is \
                unavailable to this repository",
            ParentCompleteness::ParentsUnverifiable => "a parent this commit names is absent and Nerve could not establish whether the \
                absence was declared, so neither shallow nor corrupt may be asserted",
        }
    }

    /// Two different values never share a sentence.
    pub proof fn lemma_notes_distinct(a: ParentCompleteness, b: ParentCompleteness)
        ensures
            a.note_of() == b.note_of() ==> a == b,
    {
        reveal_strlit("no parents in the commit object and no shallow boundary, so the project's \
            history begins here");
        reveal_strlit("earliest commit visible in this checkout; history before this point is \
            unavailable to this repository");
        reveal_strlit("every parent this commit names is present");
        reveal_strlit("a parent this commit names is absent and was not declared absent, a fault in \
            this repository rather than a shallow boundary; history before this point is \
            unavailable to this repository");
        reveal_strlit("a parent this commit names is absent and Nerve could not establish whether the \
            absence was declared, so neither shallow nor corrupt may be asserted");
        if a.note_of() == b.note_of() {
            assert(a.note_of().len() == b.note_of().len());
        }
    }

}

impl core::str::FromStr for ParentCompleteness {
    type Err = NerveError;

    fn from_str(text: &str) -> (parsed: Result<ParentCompleteness, NerveError>)
        ensures
            match parsed {
                Ok(value) => ParentCompleteness::parse_name(text@) == Some(value),
                Err(e) => ParentCompleteness::parse_name(text@) is None
                    && (e matches NerveError::UnknownVocabularyValue { vocabulary, value }
                    && vocabulary@ == "ParentCompleteness"@ && value@ == text@),
            },
    {
        match ParentCompleteness::from_name(text) {
            Some(value) => Ok(value),
            None => Err(NerveError::unknown("ParentCompleteness", text)),
        }
    }
}

/// Whether a commit's changes were enumerated, and if not, why not.
#[derive(Debug, Clone, Copy, PartialEq, Eq, Structural, PartialOrd, Ord, Hash)]
pub enum ChangesEnumerated {
    /// The tree diff against the single parent ran to completion. Zero rows means the commit
    Enumerated,
    /// A merge. Change enumeration is defined against one parent and a merge has several, so
    MergeNotEnumerated,
    /// The parent tree could not be read — a shallow boundary, or a missing object — so there was
    ParentUnavailable,
    /// A bound was hit while enumerating. The count is in `git_history_ingest.refusals`.
    Refused,
}

impl ChangesEnumerated {
    /// Every value, in declaration order.
    pub const ALL: [ChangesEnumerated; 4] = [
        ChangesEnumerated::Enumerated,
        ChangesEnumerated::MergeNotEnumerated,
        ChangesEnumerated::ParentUnavailable,
        ChangesEnumerated::Refused,
    ];

    /// The canonical name of a value.
    pub open spec fn name_of(self) -> Seq<char> {
        match self {
            ChangesEnumerated::Enumerated => "enumerated"@,
            ChangesEnumerated::MergeNotEnumerated => "merge_not_enumerated"@,
            ChangesEnumerated::ParentUnavailable => "parent_unavailable"@,
            ChangesEnumerated::Refused => "refused"@,
        }
    }

    /// Canonical name, as stored and as carried in responses.
    pub fn as_str(self) -> (text: &'static str)
        ensures
            text@ == self.name_of(),
    {
        match self {
            ChangesEnumerated::Enumerated => "enumerated",
            ChangesEnumerated::MergeNotEnumerated => "merge_not_enumerated",
            ChangesEnumerated::ParentUnavailable => "parent_unavailable",
            ChangesEnumerated::Refused => "refused",
        }
    }

    /// The value whose canonical name is `text`, if any.
    pub open spec fn parse_name(text: Seq<char>) -> Option<ChangesEnumerated> {
        if text == "enumerated"@ {
            Some(ChangesEnumerated::Enumerated)
        } else if text == "merge_not_enumerated"@ {
            Some(ChangesEnumerated::MergeNotEnumerated)
        } else if text == "parent_unavailable"@ {
            Some(ChangesEnumerated::ParentUnavailable)
        } else if text == "refused"@ {
            Some(ChangesEnumerated::Refused)
        } else {
            None
        }
    }

    /// The value whose canonical name is `text`, if any.
    pub fn from_name(text: &str) -> (found: Option<ChangesEnumerated>)
        ensures
            found == ChangesEnumerated::parse_name(text@),
    {
        if str_eq(text, "enumerated") {
            return Some(ChangesEnumerated::Enumerated);
        }
        if str_eq(text, "merge_not_enumerated") {
            return Some(ChangesEnumerated::MergeNotEnumerated);
        }
        if str_eq(text, "parent_unavailable") {
            return Some(ChangesEnumerated::ParentUnavailable);
        }
        if str_eq(text, "refused") {
            return Some(ChangesEnumerated::Refused);
        }
        None
    }

    /// Two different values never share a canonical name.
    pub proof fn lemma_names_distinct(a: ChangesEnumerated, b: ChangesEnumerated)
        ensures
            a.name_of() == b.name_of() ==> a == b,
    {
        reveal_strlit("enumerated");
        reveal_strlit("merge_not_enumerated");
        reveal_strlit("parent_unavailable");
        reveal_strlit("refused");
        if a.name_of() == b.name_of() {
            assert(a.name_of().len() == b.name_of().len());
        }
    }

    /// Reading a canonical name back gives the value it names.
    pub proof fn lemma_name_round_trip(value: ChangesEnumerated)
        ensures
            ChangesEnumerated::parse_name(value.name_of()) == Some(value),
    {
        ChangesEnumerated::lemma_names_distinct(ChangesEnumerated::Enumerated, value);
        ChangesEnumerated::lemma_names_distinct(ChangesEnumerated::MergeNotEnumerated, value);
        ChangesEnumerated::lemma_names_distinct(ChangesEnumerated::ParentUnavailable, value);
        ChangesEnumerated::lemma_names_distinct(ChangesEnumerated::Refused, value);
    }

    /// The sentence that explains a value.
    pub open spec fn note_of(self) -> Seq<char> {
        match self {
            ChangesEnumerated::Enumerated => "the diff against the single parent ran to completion, so a zero here really is \
                \"nothing changed\""@,
            ChangesEnumerated::MergeNotEnumerated => "a merge has several parents and a change is only defined against one, so none \
                were enumerated — not an empty commit"@,
            ChangesEnumerated::ParentUnavailable => "the parent tree could not be read, so nothing was enumerated — not an empty commit"@,
            ChangesEnumerated::Refused => "a bound refused this commit's diff, so nothing was enumerated — see the refusals \
                above"@,
        }
    }

    /// What the value means, in words.
    pub fn note(self) -> (text: &'static str)
        ensures
            text@ == self.note_of(),
    {
        match self {
            ChangesEnumerated::Enumerated => "the diff against the single parent ran to completion, so a zero here really is \
                \"nothing changed\"",
            ChangesEnumerated::MergeNotEnumerated => "a merge has several parents and a change is only defined against one, so none \
                were enumerated — not an empty commit",
            ChangesEnumerated::ParentUnavailable => "the parent tree could not be read, so nothing was enumerated — not an empty commit",
            ChangesEnumerated::Refused => "a bound refused this commit's diff, so nothing was enumerated — see the refusals \
                above",
        }
    }

    /// Two different values never share a sentence.
    pub proof fn lemma_notes_distinct(a: ChangesEnumerated, b: ChangesEnumerated)
        ensures
            a.note_of() == b.note_of() ==> a == b,
    {
        reveal_strlit("the diff against the single parent ran to completion, so a zero here really is \
            \"nothing changed\"");
        reveal_strlit("a merge has several parents and a change is only defined against one, so none \
            were enumerated — not an empty commit");
        reveal_strlit("the parent tree could not be read, so nothing was enumerated — not an empty commit");
        reveal_strlit("a bound refused this commit's diff, so nothing was enumerated — see the refusals \
            above");
        if a.note_of() == b.note_of() {
            assert(a.note_of().len() == b.note_of().len());
        }
    }

}

impl core::str::FromStr for ChangesEnumerated {
    type Err = NerveError;

    fn from_str(text: &str) -> (parsed: Result<ChangesEnumerated, NerveError>)
        ensures
            match parsed {
                Ok(value) => ChangesEnumerated::parse_name(text@) == Some(value),
                Err(e) => ChangesEnumerated::parse_name(text@) is None
                    && (e matches NerveError::UnknownVocabularyValue { vocabulary, value }
                    && vocabulary@ == "ChangesEnumerated"@ && value@ == text@),
            },
    {
        match ChangesEnumerated::from_name(text) {
            Some(value) => Ok(value),
            None => Err(NerveError::unknown("ChangesEnumerated", text)),
        }
    }
}

/// Why the history walk stopped.
#[derive(Debug, Clone, Copy, PartialEq, Eq, Structural, PartialOrd, Ord, Hash)]
pub enum WalkTermination {
    /// No unvisited parent remained. The walk saw everything reachable from its tips.
    Exhausted,
    /// The commit budget was reached. Nerve stopped; the history did not.
    CommitBudget,
    /// A declared shallow boundary was reached.
    ShallowBoundary,
    /// A parent object was absent from the store.
    MissingObject,
    /// A refusal — a bound or an unreadable object — stopped the walk. Counted, never silent.
    Refused,
}

impl WalkTermination {
    /// Every value, in declaration order.
    pub const ALL: [WalkTermination; 5] = [
        WalkTermination::Exhausted,
        WalkTermination::CommitBudget,
        WalkTermination::ShallowBoundary,
        WalkTermination::MissingObject,
        WalkTermination::Refused,
    ];

    /// The canonical name of a value.
    pub open spec fn name_of(self) -> Seq<char> {
        match self {
            WalkTermination::Exhausted => "exhausted"@,
            WalkTermination::CommitBudget => "commit_budget"@,
            WalkTermination::ShallowBoundary => "shallow_boundary"@,
            WalkTermination::MissingObject => "missing_object"@,
            WalkTermination::Refused => "refused"@,
        }
    }

    /// Canonical name, as stored and as carried in responses.
    pub fn as_str(self) -> (text: &'static str)
        ensures
            text@ == self.name_of(),
    {
        match self {
            WalkTermination::Exhausted => "exhausted",
            WalkTermination::CommitBudget => "commit_budget",
            WalkTermination::ShallowBoundary => "shallow_boundary",
            WalkTermination::MissingObject => "missing_object",
            WalkTermination::Refused => "refused",
        }
    }

    /// The value whose canonical name is `text`, if any.
    pub open spec fn parse_name(text: Seq<char>) -> Option<WalkTermination> {
        if text == "exhausted"@ {
            Some(WalkTermination::Exhausted)
        } else if text == "commit_budget"@ {
            Some(WalkTermination::CommitBudget)
        } else if text == "shallow_boundary"@ {
            Some(WalkTermination::ShallowBoundary)
        } else if text == "missing_object"@ {
            Some(WalkTermination::MissingObject)
        } else if text == "refused"@ {
            Some(WalkTermination::Refused)
        } else {
            None
        }
    }

    /// The value whose canonical name is `text`, if any.
    pub fn from_name(text: &str) -> (found: Option<WalkTermination>)
        ensures
            found == WalkTermination::parse_name(text@),
    {
        if str_eq(text, "exhausted") {
            return Some(WalkTermination::Exhausted);
        }
        if str_eq(text, "commit_budget") {
            return Some(WalkTermination::CommitBudget);
        }
        if str_eq(text, "shallow_boundary") {
            return Some(WalkTermination::ShallowBoundary);
        }
        if str_eq(text, "missing_object") {
            return Some(WalkTermination::MissingObject);
        }
        if str_eq(text, "refused") {
            return Some(WalkTermination::Refused);
        }
        None
    }

    /// Two different values never share a canonical name.
    pub proof fn lemma_names_distinct(a: WalkTermination, b: WalkTermination)
        ensures
            a.name_of() == b.name_of() ==> a == b,
    {
        reveal_strlit("exhausted");
        reveal_strlit("commit_budget");
        reveal_strlit("shallow_boundary");
        reveal_strlit("missing_object");
        reveal_strlit("refused");
        if a.name_of() == b.name_of() {
            assert(a.name_of().len() == b.name_of().len());
        }
    }

    /// Reading a canonical name back gives the value it names.
    pub proof fn lemma_name_round_trip(value: WalkTermination)
        ensures
            WalkTermination::parse_name(value.name_of()) == Some(value),
    {
        WalkTermination::lemma_names_distinct(WalkTermination::Exhausted, value);
        WalkTermination::lemma_names_distinct(WalkTermination::CommitBudget, value);
        WalkTermination::lemma_names_distinct(WalkTermination::ShallowBoundary, value);
        WalkTermination::lemma_names_distinct(WalkTermination::MissingObject, value);
        WalkTermination::lemma_names_distinct(WalkTermination::Refused, value);
    }

    /// The sentence that explains a value.
    pub open spec fn note_of(self) -> Seq<char> {
        match self {
            WalkTermination::Exhausted => "every commit reachable from the walked tips was read"@,
            WalkTermination::CommitBudget => "Nerve stopped at its own commit budget, so the repository has more history than \
                this ingest read"@,
            WalkTermination::ShallowBoundary => "the walk reached a declared shallow boundary; history before it is unavailable to \
                this repository"@,
            WalkTermination::MissingObject => "an object the walk needed was absent; a fault in this repository, not a declared \
                boundary"@,
            WalkTermination::Refused => "a bound refused an object the walk needed"@,
        }
    }

    /// What the value means, in words.
    pub fn note(self) -> (text: &'static str)
        ensures
            text@ == self.note_of(),
    {
        match self {
            WalkTermination::Exhausted => "every commit reachable from the walked tips was read",
            WalkTermination::CommitBudget => "Nerve stopped at its own commit budget, so the repository has more history than \
                this ingest read",
            WalkTermination::ShallowBoundary => "the walk reached a declared shallow boundary; history before it is unavailable to \
                this repository",
            WalkTermination::MissingObject => "an object the walk needed was absent; a fault in this repository, not a declared \
                boundary",
            WalkTermination::Refused => "a bound refused an object the walk needed",
        }
    }

    /// Two different values never share a sentence.
    pub proof fn lemma_notes_distinct(a: WalkTermination, b: WalkTermination)
        ensures
            a.note_of() == b.note_of() ==> a == b,
    {
        reveal_strlit("every commit reachable from the walked tips was read");
        reveal_strlit("Nerve stopped at its own commit budget, so the repository has more history than \
            this ingest read");
        reveal_strlit("the walk reached a declared shallow boundary; history before it is unavailable to \
            this repository");
        reveal_strlit("an object the walk needed was absent; a fault in this repository, not a declared \
            boundary");
        reveal_strlit("a bound refused an object the walk needed");
        if a.note_of() == b.note_of() {
            assert(a.note_of().len() == b.note_of().len());
        }
    }

}

impl core::str::FromStr for WalkTermination {
    type Err = NerveError;

    fn from_str(text: &str) -> (parsed: Result<WalkTermination, NerveError>)
        ensures
            match parsed {
                Ok(value) => WalkTermination::parse_name(text@) == Some(value),
                Err(e) => WalkTermination::parse_name(text@) is None
                    && (e matches NerveError::UnknownVocabularyValue { vocabulary, value }
                    && vocabulary@ == "WalkTermination"@ && value@ == text@),
            },
    {
        match WalkTermination::from_name(text) {
            Some(value) => Ok(value),
            None => Err(NerveError::unknown("WalkTermination", text)),
        }
    }
}

/// What a rename hypothesis rests on.
#[derive(Debug, Clone, Copy, PartialEq, Eq, Structural, PartialOrd, Ord, Hash)]
pub enum RenameEvidence {
    /// The deleted path and the added path name the same blob oid. Byte-identical content.
    ExactContent,
    /// The two blobs differ, and a named method measured how much of their content they share.
    SimilarContent,
}

impl RenameEvidence {
    /// Every value, in declaration order.
    pub const ALL: [RenameEvidence; 2] = [
        RenameEvidence::ExactContent,
        RenameEvidence::SimilarContent,
    ];

    /// The canonical name of a value.
    pub open spec fn name_of(self) -> Seq<char> {
        match self {
            RenameEvidence::ExactContent => "exact_content"@,
            RenameEvidence::SimilarContent => "similar_content"@,
        }
    }

    /// Canonical name, as stored and as carried in responses.
    pub fn as_str(self) -> (text: &'static str)
        ensures
            text@ == self.name_of(),
    {
        match self {
            RenameEvidence::ExactContent => "exact_content",
            RenameEvidence::SimilarContent => "similar_content",
        }
    }

    /// The value whose canonical name is `text`, if any.
    pub open spec fn parse_name(text: Seq<char>) -> Option<RenameEvidence> {
        if text == "exact_content"@ {
            Some(RenameEvidence::ExactContent)
        } else if text == "similar_content"@ {
            Some(RenameEvidence::SimilarContent)
        } else {
            None
        }
    }

    /// The value whose canonical name is `text`, if any.
    pub fn from_name(text: &str) -> (found: Option<RenameEvidence>)
        ensures
            found == RenameEvidence::parse_name(text@),
    {
        if str_eq(text, "exact_content") {
            return Some(RenameEvidence::ExactContent);
        }
        if str_eq(text, "similar_content") {
            return Some(RenameEvidence::SimilarContent);
        }
        None
    }

    /// Two different values never share a canonical name.
    pub proof fn lemma_names_distinct(a: RenameEvidence, b: RenameEvidence)
        ensures
            a.name_of() == b.name_of() ==> a == b,
    {
        reveal_strlit("exact_content");
        reveal_strlit("similar_content");
        if a.name_of() == b.name_of() {
            assert(a.name_of().len() == b.name_of().len());
        }
    }

    /// Reading a canonical name back gives the value it names.
    pub proof fn lemma_name_round_trip(value: RenameEvidence)
        ensures
            RenameEvidence::parse_name(value.name_of()) == Some(value),
    {
        RenameEvidence::lemma_names_distinct(RenameEvidence::ExactContent, value);
        RenameEvidence::lemma_names_distinct(RenameEvidence::SimilarContent, value);
    }

    /// The sentence that explains a value.
    pub open spec fn note_of(self) -> Seq<char> {
        match self {
            RenameEvidence::ExactContent => "the deleted path and the added path name the same blob, so the content is \
                byte-identical — no similarity was computed and no threshold applied, and it is \
                still a hypothesis rather than a rename Git recorded"@,
            RenameEvidence::SimilarContent => "the two blobs differ and a named method measured how much content they share — \
                the measurement means nothing without that method, its version and the threshold \
                it was admitted against, and it is a hypothesis rather than a rename Git recorded"@,
        }
    }

    /// What the value means, in words.
    pub fn note(self) -> (text: &'static str)
        ensures
            text@ == self.note_of(),
    {
        match self {
            RenameEvidence::ExactContent => "the deleted path and the added path name the same blob, so the content is \
                byte-identical — no similarity was computed and no threshold applied, and it is \
                still a hypothesis rather than a rename Git recorded",
            RenameEvidence::SimilarContent => "the two blobs differ and a named method measured how much content they share — \
                the measurement means nothing without that method, its version and the threshold \
                it was admitted against, and it is a hypothesis rather than a rename Git recorded",
        }
    }

    /// Two different values never share a sentence.
    pub proof fn lemma_notes_distinct(a: RenameEvidence, b: RenameEvidence)
        ensures
            a.note_of() == b.note_of() ==> a == b,
    {
        reveal_strlit("the deleted path and the added path name the same blob, so the content is \
            byte-identical — no similarity was computed and no threshold applied, and it is \
            still a hypothesis rather than a rename Git recorded");
        reveal_strlit("the two blobs differ and a named method measured how much content they share — \
            the measurement means nothing without that method, its version and the threshold \
            it was admitted against, and it is a hypothesis rather than a rename Git recorded");
        if a.note_of() == b.note_of() {
            assert(a.note_of().len() == b.note_of().len());
        }
    }

}

impl core::str::FromStr for RenameEvidence {
    type Err = NerveError;

    fn from_str(text: &str) -> (parsed: Result<RenameEvidence, NerveError>)
        ensures
            match parsed {
                Ok(value) => RenameEvidence::parse_name(text@) == Some(value),
                Err(e) => RenameEvidence::parse_name(text@) is None
                    && (e matches NerveError::UnknownVocabularyValue { vocabulary, value }
                    && vocabulary@ == "RenameEvidence"@ && value@ == text@),
            },
    {
        match RenameEvidence::from_name(text) {
            Some(value) => Ok(value),
            None => Err(NerveError::unknown("RenameEvidence", text)),
        }
    }
}

/// How many ways a rename hypothesis could have been drawn.
#[derive(Debug, Clone, Copy, PartialEq, Eq, Structural, PartialOrd, Ord, Hash)]
pub enum RenameAmbiguity {
    /// One deleted path, one added path, one blob. The only unambiguous shape.
    Unique,
    /// Several deleted paths share this blob with one added path.
    ManyFrom,
    /// One deleted path shares this blob with several added paths.
    ManyTo,
    /// Several on both sides.
    ManyBoth,
}

impl RenameAmbiguity {
    /// Every value, in declaration order.
    pub const ALL: [RenameAmbiguity; 4] = [
        RenameAmbiguity::Unique,
        RenameAmbiguity::ManyFrom,
        RenameAmbiguity::ManyTo,
        RenameAmbiguity::ManyBoth,
    ];

    /// The canonical name of a value.
    pub open spec fn name_of(self) -> Seq<char> {
        match self {
            RenameAmbiguity::Unique => "unique"@,
            RenameAmbiguity::ManyFrom => "many_from"@,
            RenameAmbiguity::ManyTo => "many_to"@,
            RenameAmbiguity::ManyBoth => "many_both"@,
        }
    }

    /// Canonical name, as stored and as carried in responses.
    pub fn as_str(self) -> (text: &'static str)
        ensures
            text@ == self.name_of(),
    {
        match self {
            RenameAmbiguity::Unique => "unique",
            RenameAmbiguity::ManyFrom => "many_from",
            RenameAmbiguity::ManyTo => "many_to",
            RenameAmbiguity::ManyBoth => "many_both",
        }
    }

    /// The value whose canonical name is `text`, if any.
    pub open spec fn parse_name(text: Seq<char>) -> Option<RenameAmbiguity> {
        if text == "unique"@ {
            Some(RenameAmbiguity::Unique)
        } else if text == "many_from"@ {
            Some(RenameAmbiguity::ManyFrom)
        } else if text == "many_to"@ {
            Some(RenameAmbiguity::ManyTo)
        } else if text == "many_both"@ {
            Some(RenameAmbiguity::ManyBoth)
        } else {
            None
        }
    }

    /// The value whose canonical name is `text`, if any.
    pub fn from_name(text: &str) -> (found: Option<RenameAmbiguity>)
        ensures
            found == RenameAmbiguity::parse_name(text@),
    {
        if str_eq(text, "unique") {
            return Some(RenameAmbiguity::Unique);
        }
        if str_eq(text, "many_from") {
            return Some(RenameAmbiguity::ManyFrom);
        }
        if str_eq(text, "many_to") {
            return Some(RenameAmbiguity::ManyTo);
        }
        if str_eq(text, "many_both") {
            return Some(RenameAmbiguity::ManyBoth);
        }
        None
    }

    /// Two different values never share a canonical name.
    pub proof fn lemma_names_distinct(a: RenameAmbiguity, b: RenameAmbiguity)
        ensures
            a.name_of() == b.name_of() ==> a == b,
    {
        reveal_strlit("unique");
        reveal_strlit("many_from");
        reveal_strlit("many_to");
        reveal_strlit("many_both");
        if a.name_of() == b.name_of() {
            assert(a.name_of().len() == b.name_of().len());
            assert(a.name_of()[5] == b.name_of()[5]);
        }
    }

    /// Reading a canonical name back gives the value it names.
    pub proof fn lemma_name_round_trip(value: RenameAmbiguity)
        ensures
            RenameAmbiguity::parse_name(value.name_of()) == Some(value),
    {
        RenameAmbiguity::lemma_names_distinct(RenameAmbiguity::Unique, value);
        RenameAmbiguity::lemma_names_distinct(RenameAmbiguity::ManyFrom, value);
        RenameAmbiguity::lemma_names_distinct(RenameAmbiguity::ManyTo, value);
        RenameAmbiguity::lemma_names_distinct(RenameAmbiguity::ManyBoth, value);
    }

    /// The sentence that explains a value.
    pub open spec fn note_of(self) -> Seq<char> {
        match self {
            RenameAmbiguity::Unique => "one deleted path, one added path, one blob — the only unambiguous shape, and \
                still a hypothesis"@,
            RenameAmbiguity::ManyFrom => "several deleted paths share this blob — every pairing is recorded and none is \
                promoted"@,
            RenameAmbiguity::ManyTo => "several added paths share this blob — every pairing is recorded and none is \
                promoted"@,
            RenameAmbiguity::ManyBoth => "several paths on both sides share this blob — every pairing is recorded and none \
                is promoted"@,
        }
    }

    /// What the value means, in words.
    pub fn note(self) -> (text: &'static str)
        ensures
            text@ == self.note_of(),
    {
        match self {
            RenameAmbiguity::Unique => "one deleted path, one added path, one blob — the only unambiguous shape, and \
                still a hypothesis",
            RenameAmbiguity::ManyFrom => "several deleted paths share this blob — every pairing is recorded and none is \
                promoted",
            RenameAmbiguity::ManyTo => "several added paths share this blob — every pairing is recorded and none is \
                promoted",
            RenameAmbiguity::ManyBoth => "several paths on both sides share this blob — every pairing is recorded and none \
                is promoted",
        }
    }

    /// Two different values never share a sentence.
    pub proof fn lemma_notes_distinct(a: RenameAmbiguity, b: RenameAmbiguity)
        ensures
            a.note_of() == b.note_of() ==> a == b,
    {
        reveal_strlit("one deleted path, one added path, one blob — the only unambiguous shape, and \
            still a hypothesis");
        reveal_strlit("several deleted paths share this blob — every pairing is recorded and none is \
            promoted");
        reveal_strlit("several added paths share this blob — every pairing is recorded and none is \
            promoted");
        reveal_strlit("several paths on both sides share this blob — every pairing is recorded and none \
            is promoted");
        if a.note_of() == b.note_of() {
            assert(a.note_of().len() == b.note_of().len());
        }
    }

}

impl core::str::FromStr for RenameAmbiguity {
    type Err = NerveError;

    fn from_str(text: &str) -> (parsed: Result<RenameAmbiguity, NerveError>)
        ensures
            match parsed {
                Ok(value) => RenameAmbiguity::parse_name(text@) == Some(value),
                Err(e) => RenameAmbiguity::parse_name(text@) is None
                    && (e matches NerveError::UnknownVocabularyValue { vocabulary, value }
                    && vocabulary@ == "RenameAmbiguity"@ && value@ == text@),
            },
    {
        match RenameAmbiguity::from_name(text) {
            Some(value) => Ok(value),
            None => Err(NerveError::unknown("RenameAmbiguity", text)),
        }
    }
}

/// Whether a commit's similarity candidate set was measured in full, and if not, why not.
#[derive(Debug, Clone, Copy, PartialEq, Eq, Structural, PartialOrd, Ord, Hash)]
pub enum RenameAnalysisCompleteness {
    /// Every candidate pair was measured.
    Complete,
    /// Some pairs could not be measured. The rows present are **not** the full set.
    Partial,
    /// The candidate set exceeded a bound, so **no** similarity row exists for this commit.
    RefusedBound,
    /// The diff was not enumerated, so there was no candidate set to measure.
    NotAttempted,
}

impl RenameAnalysisCompleteness {
    /// Every value, in declaration order.
    pub const ALL: [RenameAnalysisCompleteness; 4] = [
        RenameAnalysisCompleteness::Complete,
        RenameAnalysisCompleteness::Partial,
        RenameAnalysisCompleteness::RefusedBound,
        RenameAnalysisCompleteness::NotAttempted,
    ];

    /// The canonical name of a value.
    pub open spec fn name_of(self) -> Seq<char> {
        match self {
            RenameAnalysisCompleteness::Complete => "complete"@,
            RenameAnalysisCompleteness::Partial => "partial"@,
            RenameAnalysisCompleteness::RefusedBound => "refused_bound"@,
            RenameAnalysisCompleteness::NotAttempted => "not_attempted"@,
        }
    }

    /// Canonical name, as stored and as carried in responses.
    pub fn as_str(self) -> (text: &'static str)
        ensures
            text@ == self.name_of(),
    {
        match self {
            RenameAnalysisCompleteness::Complete => "complete",
            RenameAnalysisCompleteness::Partial => "partial",
            RenameAnalysisCompleteness::RefusedBound => "refused_bound",
            RenameAnalysisCompleteness::NotAttempted => "not_attempted",
        }
    }

    /// The value whose canonical name is `text`, if any.
    pub open spec fn parse_name(text: Seq<char>) -> Option<RenameAnalysisCompleteness> {
        if text == "complete"@ {
            Some(RenameAnalysisCompleteness::Complete)
        } else if text == "partial"@ {
            Some(RenameAnalysisCompleteness::Partial)
        } else if text == "refused_bound"@ {
            Some(RenameAnalysisCompleteness::RefusedBound)
        } else if text == "not_attempted"@ {
            Some(RenameAnalysisCompleteness::NotAttempted)
        } else {
            None
        }
    }

    /// The value whose canonical name is `text`, if any.
    pub fn from_name(text: &str) -> (found: Option<RenameAnalysisCompleteness>)
        ensures
            found == RenameAnalysisCompleteness::parse_name(text@),
    {
        if str_eq(text, "complete") {
            return Some(RenameAnalysisCompleteness::Complete);
        }
        if str_eq(text, "partial") {
            return Some(RenameAnalysisCompleteness::Partial);
        }
        if str_eq(text, "refused_bound") {
            return Some(RenameAnalysisCompleteness::RefusedBound);
        }
        if str_eq(text, "not_attempted") {
            return Some(RenameAnalysisCompleteness::NotAttempted);
        }
        None
    }

    /// Two different values never share a canonical name.
    pub proof fn lemma_names_distinct(a: RenameAnalysisCompleteness, b: RenameAnalysisCompleteness)
        ensures
            a.name_of() == b.name_of() ==> a == b,
    {
        reveal_strlit("complete");
        reveal_strlit("partial");
        reveal_strlit("refused_bound");
        reveal_strlit("not_attempted");
        if a.name_of() == b.name_of() {
            assert(a.name_of().len() == b.name_of().len());
            assert(a.name_of()[0] == b.name_of()[0]);
        }
    }

    /// Reading a canonical name back gives the value it names.
    pub proof fn lemma_name_round_trip(value: RenameAnalysisCompleteness)
        ensures
            RenameAnalysisCompleteness::parse_name(value.name_of()) == Some(value),
    {
        RenameAnalysisCompleteness::lemma_names_distinct(RenameAnalysisCompleteness::Complete, value);
        RenameAnalysisCompleteness::lemma_names_distinct(RenameAnalysisCompleteness::Partial, value);
        RenameAnalysisCompleteness::lemma_names_distinct(RenameAnalysisCompleteness::RefusedBound, value);
        RenameAnalysisCompleteness::lemma_names_distinct(RenameAnalysisCompleteness::NotAttempted, value);
    }

    /// The sentence that explains a value.
    pub open spec fn note_of(self) -> Seq<char> {
        match self {
            RenameAnalysisCompleteness::Complete => "every candidate pair in this commit was measured, so the similarity rows present \
                are the full set for this matcher"@,
            RenameAnalysisCompleteness::Partial => "some candidate pairs could not be measured — the rows present are not the full \
                set, and the reasons are counted rather than summarised away"@,
            RenameAnalysisCompleteness::RefusedBound => "the candidate set exceeded a bound, so no similarity hypothesis was recorded for \
                this commit at all — an empty result here is a refusal, not an absence of renames"@,
            RenameAnalysisCompleteness::NotAttempted => "the commit's changes were not enumerated, so there was no candidate set to \
                measure — this says nothing about whether the commit renamed anything"@,
        }
    }

    /// What the value means, in words.
    pub fn note(self) -> (text: &'static str)
        ensures
            text@ == self.note_of(),
    {
        match self {
            RenameAnalysisCompleteness::Complete => "every candidate pair in this commit was measured, so the similarity rows present \
                are the full set for this matcher",
            RenameAnalysisCompleteness::Partial => "some candidate pairs could not be measured — the rows present are not the full \
                set, and the reasons are counted rather than summarised away",
            RenameAnalysisCompleteness::RefusedBound => "the candidate set exceeded a bound, so no similarity hypothesis was recorded for \
                this commit at all — an empty result here is a refusal, not an absence of renames",
            RenameAnalysisCompleteness::NotAttempted => "the commit's changes were not enumerated, so there was no candidate set to \
                measure — this says nothing about whether the commit renamed anything",
        }
    }

    /// Two different values never share a sentence.
    pub proof fn lemma_notes_distinct(a: RenameAnalysisCompleteness, b: RenameAnalysisCompleteness)
        ensures
            a.note_of() == b.note_of() ==> a == b,
    {
        reveal_strlit("every candidate pair in this commit was measured, so the similarity rows present \
            are the full set for this matcher");
        reveal_strlit("some candidate pairs could not be measured — the rows present are not the full \
            set, and the reasons are counted rather than summarised away");
        reveal_strlit("the candidate set exceeded a bound, so no similarity hypothesis was recorded for \
            this commit at all — an empty result here is a refusal, not an absence of renames");
        reveal_strlit("the commit's changes were not enumerated, so there was no candidate set to \
            measure — this says nothing about whether the commit renamed anything");
        if a.note_of() == b.note_of() {
            assert(a.note_of().len() == b.note_of().len());
        }
    }

}

impl core::str::FromStr for RenameAnalysisCompleteness {
    type Err = NerveError;

    fn from_str(text: &str) -> (parsed: Result<RenameAnalysisCompleteness, NerveError>)
        ensures
            match parsed {
                Ok(value) => RenameAnalysisCompleteness::parse_name(text@) == Some(value),
                Err(e) => RenameAnalysisCompleteness::parse_name(text@) is None
                    && (e matches NerveError::UnknownVocabularyValue { vocabulary, value }
                    && vocabulary@ == "RenameAnalysisCompleteness"@ && value@ == text@),
            },
    {
        match RenameAnalysisCompleteness::from_name(text) {
            Some(value) => Ok(value),
            None => Err(NerveError::unknown("RenameAnalysisCompleteness", text)),
        }
    }
}

/// Whether a stored commit summary is the whole first line or a cut one.
#[derive(Debug, Clone, Copy, PartialEq, Eq, Structural, PartialOrd, Ord, Hash)]
pub enum SummaryTruncation {
    /// The stored summary is the whole first line of the commit message.
    Complete,
    /// The first line was longer than the bound and was cut.
    Truncated,
    /// Written before Nerve recorded this, and it cannot be recovered.
    Unknown,
}

impl SummaryTruncation {
    /// Every value, in declaration order.
    pub const ALL: [SummaryTruncation; 3] = [
        SummaryTruncation::Complete,
        SummaryTruncation::Truncated,
        SummaryTruncation::Unknown,
    ];

    /// The canonical name of a value.
    pub open spec fn name_of(self) -> Seq<char> {
        match self {
            SummaryTruncation::Complete => "complete"@,
            SummaryTruncation::Truncated => "truncated"@,
            SummaryTruncation::Unknown => "unknown"@,
        }
    }

    /// Canonical name, as stored and as carried in responses.
    pub fn as_str(self) -> (text: &'static str)
        ensures
            text@ == self.name_of(),
    {
        match self {
            SummaryTruncation::Complete => "complete",
            SummaryTruncation::Truncated => "truncated",
            SummaryTruncation::Unknown => "unknown",
        }
    }

    /// The value whose canonical name is `text`, if any.
    pub open spec fn parse_name(text: Seq<char>) -> Option<SummaryTruncation> {
        if text == "complete"@ {
            Some(SummaryTruncation::Complete)
        } else if text == "truncated"@ {
            Some(SummaryTruncation::Truncated)
        } else if text == "unknown"@ {
            Some(SummaryTruncation::Unknown)
        } else {
            None
        }
    }

    /// The value whose canonical name is `text`, if any.
    pub fn from_name(text: &str) -> (found: Option<SummaryTruncation>)
        ensures
            found == SummaryTruncation::parse_name(text@),
    {
        if str_eq(text, "complete") {
            return Some(SummaryTruncation::Complete);
        }
        if str_eq(text, "truncated") {
            return Some(SummaryTruncation::Truncated);
        }
        if str_eq(text, "unknown") {
            return Some(SummaryTruncation::Unknown);
        }
        None
    }

    /// Two different values never share a canonical name.
    pub proof fn lemma_names_distinct(a: SummaryTruncation, b: SummaryTruncation)
        ensures
            a.name_of() == b.name_of() ==> a == b,
    {
        reveal_strlit("complete");
        reveal_strlit("truncated");
        reveal_strlit("unknown");
        if a.name_of() == b.name_of() {
            assert(a.name_of().len() == b.name_of().len());
        }
    }

    /// Reading a canonical name back gives the value it names.
    pub proof fn lemma_name_round_trip(value: SummaryTruncation)
        ensures
            SummaryTruncation::parse_name(value.name_of()) == Some(value),
    {
        SummaryTruncation::lemma_names_distinct(SummaryTruncation::Complete, value);
        SummaryTruncation::lemma_names_distinct(SummaryTruncation::Truncated, value);
        SummaryTruncation::lemma_names_distinct(SummaryTruncation::Unknown, value);
    }

    /// The sentence that explains a value.
    pub open spec fn note_of(self) -> Seq<char> {
        match self {
            SummaryTruncation::Complete => "the whole first line of the commit message is stored — nothing was cut"@,
            SummaryTruncation::Truncated => "the first line was longer than the stored bound and was cut, so the text ends \
                where Nerve stopped rather than where the author did"@,
            SummaryTruncation::Unknown => "this commit was recorded before Nerve stored whether a summary was cut, and it \
                cannot be recovered — the length alone cannot tell a short first line from a cut \
                one"@,
        }
    }

    /// What the value means, in words.
    pub fn note(self) -> (text: &'static str)
        ensures
            text@ == self.note_of(),
    {
        match self {
            SummaryTruncation::Complete => "the whole first line of the commit message is stored — nothing was cut",
            SummaryTruncation::Truncated => "the first line was longer than the stored bound and was cut, so the text ends \
                where Nerve stopped rather than where the author did",
            SummaryTruncation::Unknown => "this commit was recorded before Nerve stored whether a summary was cut, and it \
                cannot be recovered — the length alone cannot tell a short first line from a cut \
                one",
        }
    }

    /// Two different values never share a sentence.
    pub proof fn lemma_notes_distinct(a: SummaryTruncation, b: SummaryTruncation)
        ensures
            a.note_of() == b.note_of() ==> a == b,
    {
        reveal_strlit("the whole first line of the commit message is stored — nothing was cut");
        reveal_strlit("the first line was longer than the stored bound and was cut, so the text ends \
            where Nerve stopped rather than where the author did");
        reveal_strlit("this commit was recorded before Nerve stored whether a summary was cut, and it \
            cannot be recovered — the length alone cannot tell a short first line from a cut \
            one");
        if a.note_of() == b.note_of() {
            assert(a.note_of().len() == b.note_of().len());
        }
    }

}

impl core::str::FromStr for SummaryTruncation {
    type Err = NerveError;

    fn from_str(text: &str) -> (parsed: Result<SummaryTruncation, NerveError>)
        ensures
            match parsed {
                Ok(value) => SummaryTruncation::parse_name(text@) == Some(value),
                Err(e) => SummaryTruncation::parse_name(text@) is None
                    && (e matches NerveError::UnknownVocabularyValue { vocabulary, value }
                    && vocabulary@ == "SummaryTruncation"@ && value@ == text@),
            },
    {
        match SummaryTruncation::from_name(text) {
            Some(value) => Ok(value),
            None => Err(NerveError::unknown("SummaryTruncation", text)),
        }
    }
}

/// Why a similarity candidate pair carries no measurement.
#[derive(Debug, Clone, Copy, PartialEq, Eq, Structural, PartialOrd, Ord, Hash)]
pub enum SimilarityUnmeasured {
    /// The blob was not in the object store.
    BlobAbsent,
    /// The blob was in the store and could not be read back.
    BlobUnreadable,
    /// The blob exceeded the matcher's own byte bound.
    BlobTooLarge,
    /// The blob contains a `NUL` byte, so it has no lines and a ratio over it means nothing.
    BlobBinary,
    /// The blob has fewer lines than the floor beneath which a ratio is not a measurement.
    BlobTooSmall,
}

impl SimilarityUnmeasured {
    /// Every value, in declaration order.
    pub const ALL: [SimilarityUnmeasured; 5] = [
        SimilarityUnmeasured::BlobAbsent,
        SimilarityUnmeasured::BlobUnreadable,
        SimilarityUnmeasured::BlobTooLarge,
        SimilarityUnmeasured::BlobBinary,
        SimilarityUnmeasured::BlobTooSmall,
    ];

    /// The canonical name of a value.
    pub open spec fn name_of(self) -> Seq<char> {
        match self {
            SimilarityUnmeasured::BlobAbsent => "blob-absent"@,
            SimilarityUnmeasured::BlobUnreadable => "blob-unreadable"@,
            SimilarityUnmeasured::BlobTooLarge => "blob-too-large"@,
            SimilarityUnmeasured::BlobBinary => "blob-binary"@,
            SimilarityUnmeasured::BlobTooSmall => "blob-too-small"@,
        }
    }

    /// Canonical name, as stored and as carried in responses.
    pub fn as_str(self) -> (text: &'static str)
        ensures
            text@ == self.name_of(),
    {
        match self {
            SimilarityUnmeasured::BlobAbsent => "blob-absent",
            SimilarityUnmeasured::BlobUnreadable => "blob-unreadable",
            SimilarityUnmeasured::BlobTooLarge => "blob-too-large",
            SimilarityUnmeasured::BlobBinary => "blob-binary",
            SimilarityUnmeasured::BlobTooSmall => "blob-too-small",
        }
    }

    /// The value whose canonical name is `text`, if any.
    pub open spec fn parse_name(text: Seq<char>) -> Option<SimilarityUnmeasured> {
        if text == "blob-absent"@ {
            Some(SimilarityUnmeasured::BlobAbsent)
        } else if text == "blob-unreadable"@ {
            Some(SimilarityUnmeasured::BlobUnreadable)
        } else if text == "blob-too-large"@ {
            Some(SimilarityUnmeasured::BlobTooLarge)
        } else if text == "blob-binary"@ {
            Some(SimilarityUnmeasured::BlobBinary)
        } else if text == "blob-too-small"@ {
            Some(SimilarityUnmeasured::BlobTooSmall)
        } else {
            None
        }
    }

    /// The value whose canonical name is `text`, if any.
    pub fn from_name(text: &str) -> (found: Option<SimilarityUnmeasured>)
        ensures
            found == SimilarityUnmeasured::parse_name(text@),
    {
        if str_eq(text, "blob-absent") {
            return Some(SimilarityUnmeasured::BlobAbsent);
        }
        if str_eq(text, "blob-unreadable") {
            return Some(SimilarityUnmeasured::BlobUnreadable);
        }
        if str_eq(text, "blob-too-large") {
            return Some(SimilarityUnmeasured::BlobTooLarge);
        }
        if str_eq(text, "blob-binary") {
            return Some(SimilarityUnmeasured::BlobBinary);
        }
        if str_eq(text, "blob-too-small") {
            return Some(SimilarityUnmeasured::BlobTooSmall);
        }
        None
    }

    /// Two different values never share a canonical name.
    pub proof fn lemma_names_distinct(a: SimilarityUnmeasured, b: SimilarityUnmeasured)
        ensures
            a.name_of() == b.name_of() ==> a == b,
    {
        reveal_strlit("blob-absent");
        reveal_strlit("blob-unreadable");
        reveal_strlit("blob-too-large");
        reveal_strlit("blob-binary");
        reveal_strlit("blob-too-small");
        if a.name_of() == b.name_of() {
            assert(a.name_of().len() == b.name_of().len());
            assert(a.name_of()[5] == b.name_of()[5]);
            assert(a.name_of()[9] == b.name_of()[9]);
        }
    }

    /// Reading a canonical name back gives the value it names.
    pub proof fn lemma_name_round_trip(value: SimilarityUnmeasured)
        ensures
            SimilarityUnmeasured::parse_name(value.name_of()) == Some(value),
    {
        SimilarityUnmeasured::lemma_names_distinct(SimilarityUnmeasured::BlobAbsent, value);
        SimilarityUnmeasured::lemma_names_distinct(SimilarityUnmeasured::BlobUnreadable, value);
        SimilarityUnmeasured::lemma_names_distinct(SimilarityUnmeasured::BlobTooLarge, value);
        SimilarityUnmeasured::lemma_names_distinct(SimilarityUnmeasured::BlobBinary, value);
        SimilarityUnmeasured::lemma_names_distinct(SimilarityUnmeasured::BlobTooSmall, value);
    }

    /// The sentence that explains a value.
    pub open spec fn note_of(self) -> Seq<char> {
        match self {
            SimilarityUnmeasured::BlobAbsent => "the blob was not in the object store, so the pair could not be measured — an \
                unanswered question, not a negative answer"@,
            SimilarityUnmeasured::BlobUnreadable => "the blob was named by the tree and could not be read back, so the pair could not \
                be measured"@,
            SimilarityUnmeasured::BlobTooLarge => "the blob exceeded the matcher's own byte bound, which sits beneath the object \
                reader's, so it was refused rather than inflated"@,
            SimilarityUnmeasured::BlobBinary => "the blob contains a NUL byte, so it has no lines and a line ratio over it would \
                be a number without a meaning"@,
            SimilarityUnmeasured::BlobTooSmall => "the blob has fewer lines than the floor beneath which a ratio is not a \
                measurement — two one-line files agreeing says nothing"@,
        }
    }

    /// What the value means, in words.
    pub fn note(self) -> (text: &'static str)
        ensures
            text@ == self.note_of(),
    {
        match self {
            SimilarityUnmeasured::BlobAbsent => "the blob was not in the object store, so the pair could not be measured — an \
                unanswered question, not a negative answer",
            SimilarityUnmeasured::BlobUnreadable => "the blob was named by the tree and could not be read back, so the pair could not \
                be measured",
            SimilarityUnmeasured::BlobTooLarge => "the blob exceeded the matcher's own byte bound, which sits beneath the object \
                reader's, so it was refused rather than inflated",
            SimilarityUnmeasured::BlobBinary => "the blob contains a NUL byte, so it has no lines and a line ratio over it would \
                be a number without a meaning",
            SimilarityUnmeasured::BlobTooSmall => "the blob has fewer lines than the floor beneath which a ratio is not a \
                measurement — two one-line files agreeing says nothing",
        }
    }

    /// Two different values never share a sentence.
    pub proof fn lemma_notes_distinct(a: SimilarityUnmeasured, b: SimilarityUnmeasured)
        ensures
            a.note_of() == b.note_of() ==> a == b,
    {
        reveal_strlit("the blob was not in the object store, so the pair could not be measured — an \
            unanswered question, not a negative answer");
        reveal_strlit("the blob was named by the tree and could not be read back, so the pair could not \
            be measured");
        reveal_strlit("the blob exceeded the matcher's own byte bound, which sits beneath the object \
            reader's, so it was refused rather than inflated");
        reveal_strlit("the blob contains a NUL byte, so it has no lines and a line ratio over it would \
            be a number without a meaning");
        reveal_strlit("the blob has fewer lines than the floor beneath which a ratio is not a \
            measurement — two one-line files agreeing says nothing");
        if a.note_of() == b.note_of() {
            assert(a.note_of().len() == b.note_of().len());
        }
    }

}

impl core::str::FromStr for SimilarityUnmeasured {
    type Err = NerveError;

    fn from_str(text: &str) -> (parsed: Result<SimilarityUnmeasured, NerveError>)
        ensures
            match parsed {
                Ok(value) => SimilarityUnmeasured::parse_name(text@) == Some(value),
                Err(e) => SimilarityUnmeasured::parse_name(text@) is None
                    && (e matches NerveError::UnknownVocabularyValue { vocabulary, value }
                    && vocabulary@ == "SimilarityUnmeasured"@ && value@ == text@),
            },
    {
        match SimilarityUnmeasured::from_name(text) {
            Some(value) => Ok(value),
            None => Err(NerveError::unknown("SimilarityUnmeasured", text)),
        }
    }
}

/// What "when was this path first observed" actually answers, and whether *created* is one of the answers.
#[derive(Debug, Clone, Copy, PartialEq, Eq, Structural, PartialOrd, Ord, Hash)]
pub enum FirstObservedKind {
    /// The path was created at the change Nerve can see, and the claim rests on no date.
    CreatedInVisibleHistory,
    /// Changes exist, and this is the earliest one Nerve can see. It may or may not be the first, and
    EarliestVisibleChange,
    /// Zero change rows, and the path is an indexed entity: it exists now and was never touched in
    PresentBeforeVisibleHistory,
    /// Zero change rows, the path is not an indexed entity, and an index exists — so the current
    AbsentFromVisibleHistory,
    /// Zero change rows and **no index**, so the current tree could not be consulted at all.
    CurrentTreeUnknown,
    /// No `git_history_ingest` row: history has never been read here.
    NoHistoryIngested,
}

impl FirstObservedKind {
    /// Every value, in declaration order.
    pub const ALL: [FirstObservedKind; 6] = [
        FirstObservedKind::CreatedInVisibleHistory,
        FirstObservedKind::EarliestVisibleChange,
        FirstObservedKind::PresentBeforeVisibleHistory,
        FirstObservedKind::AbsentFromVisibleHistory,
        FirstObservedKind::CurrentTreeUnknown,
        FirstObservedKind::NoHistoryIngested,
    ];

    /// The canonical name of a value.
    pub open spec fn name_of(self) -> Seq<char> {
        match self {
            FirstObservedKind::CreatedInVisibleHistory => "created_in_visible_history"@,
            FirstObservedKind::EarliestVisibleChange => "earliest_visible_change"@,
            FirstObservedKind::PresentBeforeVisibleHistory => "present_before_visible_history"@,
            FirstObservedKind::AbsentFromVisibleHistory => "absent_from_visible_history"@,
            FirstObservedKind::CurrentTreeUnknown => "current_tree_unknown"@,
            FirstObservedKind::NoHistoryIngested => "no_history_ingested"@,
        }
    }

    /// Canonical name, as stored and as carried in responses.
    pub fn as_str(self) -> (text: &'static str)
        ensures
            text@ == self.name_of(),
    {
        match self {
            FirstObservedKind::CreatedInVisibleHistory => "created_in_visible_history",
            FirstObservedKind::EarliestVisibleChange => "earliest_visible_change",
            FirstObservedKind::PresentBeforeVisibleHistory => "present_before_visible_history",
            FirstObservedKind::AbsentFromVisibleHistory => "absent_from_visible_history",
            FirstObservedKind::CurrentTreeUnknown => "current_tree_unknown",
            FirstObservedKind::NoHistoryIngested => "no_history_ingested",
        }
    }

    /// The value whose canonical name is `text`, if any.
    pub open spec fn parse_name(text: Seq<char>) -> Option<FirstObservedKind> {
        if text == "created_in_visible_history"@ {
            Some(FirstObservedKind::CreatedInVisibleHistory)
        } else if text == "earliest_visible_change"@ {
            Some(FirstObservedKind::EarliestVisibleChange)
        } else if text == "present_before_visible_history"@ {
            Some(FirstObservedKind::PresentBeforeVisibleHistory)
        } else if text == "absent_from_visible_history"@ {
            Some(FirstObservedKind::AbsentFromVisibleHistory)
        } else if text == "current_tree_unknown"@ {
            Some(FirstObservedKind::CurrentTreeUnknown)
        } else if text == "no_history_ingested"@ {
            Some(FirstObservedKind::NoHistoryIngested)
        } else {
            None
        }
    }

    /// The value whose canonical name is `text`, if any.
    pub fn from_name(text: &str) -> (found: Option<FirstObservedKind>)
        ensures
            found == FirstObservedKind::parse_name(text@),
    {
        if str_eq(text, "created_in_visible_history") {
            return Some(FirstObservedKind::CreatedInVisibleHistory);
        }
        if str_eq(text, "earliest_visible_change") {
            return Some(FirstObservedKind::EarliestVisibleChange);
        }
        if str_eq(text, "present_before_visible_history") {
            return Some(FirstObservedKind::PresentBeforeVisibleHistory);
        }
        if str_eq(text, "absent_from_visible_history") {
            return Some(FirstObservedKind::AbsentFromVisibleHistory);
        }
        if str_eq(text, "current_tree_unknown") {
            return Some(FirstObservedKind::CurrentTreeUnknown);
        }
        if str_eq(text, "no_history_ingested") {
            return Some(FirstObservedKind::NoHistoryIngested);
        }
        None
    }

    /// Two different values never share a canonical name.
    pub proof fn lemma_names_distinct(a: FirstObservedKind, b: FirstObservedKind)
        ensures
            a.name_of() == b.name_of() ==> a == b,
    {
        reveal_strlit("created_in_visible_history");
        reveal_strlit("earliest_visible_change");
        reveal_strlit("present_before_visible_history");
        reveal_strlit("absent_from_visible_history");
        reveal_strlit("current_tree_unknown");
        reveal_strlit("no_history_ingested");
        if a.name_of() == b.name_of() {
            assert(a.name_of().len() == b.name_of().len());
        }
    }

    /// Reading a canonical name back gives the value it names.
    pub proof fn lemma_name_round_trip(value: FirstObservedKind)
        ensures
            FirstObservedKind::parse_name(value.name_of()) == Some(value),
    {
        FirstObservedKind::lemma_names_distinct(FirstObservedKind::CreatedInVisibleHistory, value);
        FirstObservedKind::lemma_names_distinct(FirstObservedKind::EarliestVisibleChange, value);
        FirstObservedKind::lemma_names_distinct(FirstObservedKind::PresentBeforeVisibleHistory, value);
        FirstObservedKind::lemma_names_distinct(FirstObservedKind::AbsentFromVisibleHistory, value);
        FirstObservedKind::lemma_names_distinct(FirstObservedKind::CurrentTreeUnknown, value);
        FirstObservedKind::lemma_names_distinct(FirstObservedKind::NoHistoryIngested, value);
    }

    /// The sentence that explains a value.
    pub open spec fn note_of(self) -> Seq<char> {
        match self {
            FirstObservedKind::CreatedInVisibleHistory => "the path was created at this change: the earliest recorded change is an \
                addition, nothing above it is hidden, and exactly one addition is recorded, so \
                the claim rests on no clock"@,
            FirstObservedKind::EarliestVisibleChange => "the earliest change Nerve can see, which is not established as the first one; the \
                reason history above it is out of reach is named below"@,
            FirstObservedKind::PresentBeforeVisibleHistory => "present before visible history: the path is in the current tree and no recorded \
                commit touched it, so it predates everything Nerve read"@,
            FirstObservedKind::AbsentFromVisibleHistory => "absent from visible history: no recorded commit touched it, and the current tree \
                was consulted and does not hold it"@,
            FirstObservedKind::CurrentTreeUnknown => "no recorded commit touched it, and with no index the current tree could not be \
                consulted at all, so whether it exists now is unknown rather than no"@,
            FirstObservedKind::NoHistoryIngested => "history has never been read here, which is not the same fact as a path with no \
                history"@,
        }
    }

    /// What the value means, in words.
    pub fn note(self) -> (text: &'static str)
        ensures
            text@ == self.note_of(),
    {
        match self {
            FirstObservedKind::CreatedInVisibleHistory => "the path was created at this change: the earliest recorded change is an \
                addition, nothing above it is hidden, and exactly one addition is recorded, so \
                the claim rests on no clock",
            FirstObservedKind::EarliestVisibleChange => "the earliest change Nerve can see, which is not established as the first one; the \
                reason history above it is out of reach is named below",
            FirstObservedKind::PresentBeforeVisibleHistory => "present before visible history: the path is in the current tree and no recorded \
                commit touched it, so it predates everything Nerve read",
            FirstObservedKind::AbsentFromVisibleHistory => "absent from visible history: no recorded commit touched it, and the current tree \
                was consulted and does not hold it",
            FirstObservedKind::CurrentTreeUnknown => "no recorded commit touched it, and with no index the current tree could not be \
                consulted at all, so whether it exists now is unknown rather than no",
            FirstObservedKind::NoHistoryIngested => "history has never been read here, which is not the same fact as a path with no \
                history",
        }
    }

    /// Two different values never share a sentence.
    pub proof fn lemma_notes_distinct(a: FirstObservedKind, b: FirstObservedKind)
        ensures
            a.note_of() == b.note_of() ==> a == b,
    {
        reveal_strlit("the path was created at this change: the earliest recorded change is an \
            addition, nothing above it is hidden, and exactly one addition is recorded, so \
            the claim rests on no clock");
        reveal_strlit("the earliest change Nerve can see, which is not established as the first one; the \
            reason history above it is out of reach is named below");
        reveal_strlit("present before visible history: the path is in the current tree and no recorded \
            commit touched it, so it predates everything Nerve read");
        reveal_strlit("absent from visible history: no recorded commit touched it, and the current tree \
            was consulted and does not hold it");
        reveal_strlit("no recorded commit touched it, and with no index the current tree could not be \
            consulted at all, so whether it exists now is unknown rather than no");
        reveal_strlit("history has never been read here, which is not the same fact as a path with no \
            history");
        if a.note_of() == b.note_of() {
            assert(a.note_of().len() == b.note_of().len());
        }
    }

    /// The sentence that explains a value.
    pub open spec fn created_claim_note_of(self) -> Seq<char> {
        match self {
            FirstObservedKind::CreatedInVisibleHistory => "permitted — this is the one answer of six that licenses it"@,
            FirstObservedKind::EarliestVisibleChange => "not permitted — the earliest recorded change is not established as the first one, \
                so this answer may only be rendered as the earliest change Nerve can see"@,
            FirstObservedKind::PresentBeforeVisibleHistory => "not permitted — no change to this path is recorded at all, so there is nothing \
                here that could be a creation"@,
            FirstObservedKind::AbsentFromVisibleHistory => "not permitted — no change to this path is recorded at all, so there is nothing \
                here that could be a creation"@,
            FirstObservedKind::CurrentTreeUnknown => "not permitted — no change to this path is recorded at all, so there is nothing \
                here that could be a creation"@,
            FirstObservedKind::NoHistoryIngested => "not permitted — no history has been read here, so no claim about this path can be \
                made either way"@,
        }
    }

    /// What the value means, in words.
    pub fn created_claim_note(self) -> (text: &'static str)
        ensures
            text@ == self.created_claim_note_of(),
    {
        match self {
            FirstObservedKind::CreatedInVisibleHistory => "permitted — this is the one answer of six that licenses it",
            FirstObservedKind::EarliestVisibleChange => "not permitted — the earliest recorded change is not established as the first one, \
                so this answer may only be rendered as the earliest change Nerve can see",
            FirstObservedKind::PresentBeforeVisibleHistory => "not permitted — no change to this path is recorded at all, so there is nothing \
                here that could be a creation",
            FirstObservedKind::AbsentFromVisibleHistory => "not permitted — no change to this path is recorded at all, so there is nothing \
                here that could be a creation",
            FirstObservedKind::CurrentTreeUnknown => "not permitted — no change to this path is recorded at all, so there is nothing \
                here that could be a creation",
            FirstObservedKind::NoHistoryIngested => "not permitted — no history has been read here, so no claim about this path can be \
                made either way",
        }
    }

}

impl core::str::FromStr for FirstObservedKind {
    type Err = NerveError;

    fn from_str(text: &str) -> (parsed: Result<FirstObservedKind, NerveError>)
        ensures
            match parsed {
                Ok(value) => FirstObservedKind::parse_name(text@) == Some(value),
                Err(e) => FirstObservedKind::parse_name(text@) is None
                    && (e matches NerveError::UnknownVocabularyValue { vocabulary, value }
                    && vocabulary@ == "FirstObservedKind"@ && value@ == text@),
            },
    {
        match FirstObservedKind::from_name(text) {
            Some(value) => Ok(value),
            None => Err(NerveError::unknown("FirstObservedKind", text)),
        }
    }
}

/// Whether the recorded history still describes the repository's current HEAD.
#[derive(Debug, Clone, Copy, PartialEq, Eq, Structural, PartialOrd, Ord, Hash)]
pub enum HistoryFreshness {
    /// The ingest's HEAD equals the current repository state's commit.
    Current,
    /// They differ. The recorded history describes an older HEAD; both oids are named.
    Stale,
    /// The current repository state records no commit, so the comparison cannot be made. **Not
    Unverifiable,
    /// No `git_history_ingest` row. There is nothing whose freshness could be judged.
    NoHistoryIngested,
}

impl HistoryFreshness {
    /// Every value, in declaration order.
    pub const ALL: [HistoryFreshness; 4] = [
        HistoryFreshness::Current,
        HistoryFreshness::Stale,
        HistoryFreshness::Unverifiable,
        HistoryFreshness::NoHistoryIngested,
    ];

    /// The canonical name of a value.
    pub open spec fn name_of(self) -> Seq<char> {
        match self {
            HistoryFreshness::Current => "current"@,
            HistoryFreshness::Stale => "stale"@,
            HistoryFreshness::Unverifiable => "unverifiable"@,
            HistoryFreshness::NoHistoryIngested => "no_history_ingested"@,
        }
    }

    /// Canonical name, as stored and as carried in responses.
    pub fn as_str(self) -> (text: &'static str)
        ensures
            text@ == self.name_of(),
    {
        match self {
            HistoryFreshness::Current => "current",
            HistoryFreshness::Stale => "stale",
            HistoryFreshness::Unverifiable => "unverifiable",
            HistoryFreshness::NoHistoryIngested => "no_history_ingested",
        }
    }

    /// The value whose canonical name is `text`, if any.
    pub open spec fn parse_name(text: Seq<char>) -> Option<HistoryFreshness> {
        if text == "current"@ {
            Some(HistoryFreshness::Current)
        } else if text == "stale"@ {
            Some(HistoryFreshness::Stale)
        } else if text == "unverifiable"@ {
            Some(HistoryFreshness::Unverifiable)
        } else if text == "no_history_ingested"@ {
            Some(HistoryFreshness::NoHistoryIngested)
        } else {
            None
        }
    }

    /// The value whose canonical name is `text`, if any.
    pub fn from_name(text: &str) -> (found: Option<HistoryFreshness>)
        ensures
            found == HistoryFreshness::parse_name(text@),
    {
        if str_eq(text, "current") {
            return Some(HistoryFreshness::Current);
        }
        if str_eq(text, "stale") {
            return Some(HistoryFreshness::Stale);
        }
        if str_eq(text, "unverifiable") {
            return Some(HistoryFreshness::Unverifiable);
        }
        if str_eq(text, "no_history_ingested") {
            return Some(HistoryFreshness::NoHistoryIngested);
        }
        None
    }

    /// Two different values never share a canonical name.
    pub proof fn lemma_names_distinct(a: HistoryFreshness, b: HistoryFreshness)
        ensures
            a.name_of() == b.name_of() ==> a == b,
    {
        reveal_strlit("current");
        reveal_strlit("stale");
        reveal_strlit("unverifiable");
        reveal_strlit("no_history_ingested");
        if a.name_of() == b.name_of() {
            assert(a.name_of().len() == b.name_of().len());
        }
    }

    /// Reading a canonical name back gives the value it names.
    pub proof fn lemma_name_round_trip(value: HistoryFreshness)
        ensures
            HistoryFreshness::parse_name(value.name_of()) == Some(value),
    {
        HistoryFreshness::lemma_names_distinct(HistoryFreshness::Current, value);
        HistoryFreshness::lemma_names_distinct(HistoryFreshness::Stale, value);
        HistoryFreshness::lemma_names_distinct(HistoryFreshness::Unverifiable, value);
        HistoryFreshness::lemma_names_distinct(HistoryFreshness::NoHistoryIngested, value);
    }

    /// The sentence that explains a value.
    pub open spec fn note_of(self) -> Seq<char> {
        match self {
            HistoryFreshness::Current => "the ingest's HEAD is the commit the newest indexed state records, so the recorded \
                history describes what is indexed now"@,
            HistoryFreshness::Stale => "the ingest's HEAD is not the commit the newest indexed state records: every \
                historical fact here is true of the older HEAD, which is a qualification rather \
                than an error"@,
            HistoryFreshness::Unverifiable => "the newest indexed state records no commit, so the comparison could not be made. \
                This is not \"current\": a history whose freshness cannot be established has not \
                been shown to be fresh, and reporting unknown as current is how a truncated sweep \
                becomes a clean bill of health"@,
            HistoryFreshness::NoHistoryIngested => "history has never been read here, so there is nothing whose freshness could be \
                judged — an absence, and not a failure"@,
        }
    }

    /// What the value means, in words.
    pub fn note(self) -> (text: &'static str)
        ensures
            text@ == self.note_of(),
    {
        match self {
            HistoryFreshness::Current => "the ingest's HEAD is the commit the newest indexed state records, so the recorded \
                history describes what is indexed now",
            HistoryFreshness::Stale => "the ingest's HEAD is not the commit the newest indexed state records: every \
                historical fact here is true of the older HEAD, which is a qualification rather \
                than an error",
            HistoryFreshness::Unverifiable => "the newest indexed state records no commit, so the comparison could not be made. \
                This is not \"current\": a history whose freshness cannot be established has not \
                been shown to be fresh, and reporting unknown as current is how a truncated sweep \
                becomes a clean bill of health",
            HistoryFreshness::NoHistoryIngested => "history has never been read here, so there is nothing whose freshness could be \
                judged — an absence, and not a failure",
        }
    }

    /// Two different values never share a sentence.
    pub proof fn lemma_notes_distinct(a: HistoryFreshness, b: HistoryFreshness)
        ensures
            a.note_of() == b.note_of() ==> a == b,
    {
        reveal_strlit("the ingest's HEAD is the commit the newest indexed state records, so the recorded \
            history describes what is indexed now");
        reveal_strlit("the ingest's HEAD is not the commit the newest indexed state records: every \
            historical fact here is true of the older HEAD, which is a qualification rather \
            than an error");
        reveal_strlit("the newest indexed state records no commit, so the comparison could not be made. \
            This is not \"current\": a history whose freshness cannot be established has not \
            been shown to be fresh, and reporting unknown as current is how a truncated sweep \
            becomes a clean bill of health");
        reveal_strlit("history has never been read here, so there is nothing whose freshness could be \
            judged — an absence, and not a failure");
        if a.note_of() == b.note_of() {
            assert(a.note_of().len() == b.note_of().len());
        }
    }

}

impl core::str::FromStr for HistoryFreshness {
    type Err = NerveError;

    fn from_str(text: &str) -> (parsed: Result<HistoryFreshness, NerveError>)
        ensures
            match parsed {
                Ok(value) => HistoryFreshness::parse_name(text@) == Some(value),
                Err(e) => HistoryFreshness::parse_name(text@) is None
                    && (e matches NerveError::UnknownVocabularyValue { vocabulary, value }
                    && vocabulary@ == "HistoryFreshness"@ && value@ == text@),
            },
    {
        match HistoryFreshness::from_name(text) {
            Some(value) => Ok(value),
            None => Err(NerveError::unknown("HistoryFreshness", text)),
        }
    }
}

/// Whether a registry entry is still in force, or has been retired without being destroyed.
#[derive(Debug, Clone, Copy, PartialEq, Eq, Structural, PartialOrd, Ord, Hash)]
pub enum RegistryEntryStatus {
    /// The entry counts. Links resolved against it are current claims.
    Active,
    /// The entry was removed by the user and kept as a tombstone. `withdrawn_at` says when.
    Tombstoned,
}

impl RegistryEntryStatus {
    /// Every value, in declaration order.
    pub const ALL: [RegistryEntryStatus; 2] = [
        RegistryEntryStatus::Active,
        RegistryEntryStatus::Tombstoned,
    ];

    /// The canonical name of a value.
    pub open spec fn name_of(self) -> Seq<char> {
        match self {
            RegistryEntryStatus::Active => "active"@,
            RegistryEntryStatus::Tombstoned => "tombstoned"@,
        }
    }

    /// Canonical name, as stored and as carried in responses.
    pub fn as_str(self) -> (text: &'static str)
        ensures
            text@ == self.name_of(),
    {
        match self {
            RegistryEntryStatus::Active => "active",
            RegistryEntryStatus::Tombstoned => "tombstoned",
        }
    }

    /// The value whose canonical name is `text`, if any.
    pub open spec fn parse_name(text: Seq<char>) -> Option<RegistryEntryStatus> {
        if text == "active"@ {
            Some(RegistryEntryStatus::Active)
        } else if text == "tombstoned"@ {
            Some(RegistryEntryStatus::Tombstoned)
        } else {
            None
        }
    }

    /// The value whose canonical name is `text`, if any.
    pub fn from_name(text: &str) -> (found: Option<RegistryEntryStatus>)
        ensures
            found == RegistryEntryStatus::parse_name(text@),
    {
        if str_eq(text, "active") {
            return Some(RegistryEntryStatus::Active);
        }
        if str_eq(text, "tombstoned") {
            return Some(RegistryEntryStatus::Tombstoned);
        }
        None
    }

    /// Two different values never share a canonical name.
    pub proof fn lemma_names_distinct(a: RegistryEntryStatus, b: RegistryEntryStatus)
        ensures
            a.name_of() == b.name_of() ==> a == b,
    {
        reveal_strlit("active");
        reveal_strlit("tombstoned");
        if a.name_of() == b.name_of() {
            assert(a.name_of().len() == b.name_of().len());
        }
    }

    /// Reading a canonical name back gives the value it names.
    pub proof fn lemma_name_round_trip(value: RegistryEntryStatus)
        ensures
            RegistryEntryStatus::parse_name(value.name_of()) == Some(value),
    {
        RegistryEntryStatus::lemma_names_distinct(RegistryEntryStatus::Active, value);
        RegistryEntryStatus::lemma_names_distinct(RegistryEntryStatus::Tombstoned, value);
    }

    /// The sentence that explains a value.
    pub open spec fn note_of(self) -> Seq<char> {
        match self {
            RegistryEntryStatus::Active => "this repository is registered as a neighbour and its entry still counts — a link \
                resolved against it is a current claim rather than a historical one"@,
            RegistryEntryStatus::Tombstoned => "the entry was removed and kept rather than deleted, so its identity survives and \
                a link that rested on it can still say which entry went away and when — a deleted \
                row could not have reported its own ending"@,
        }
    }

    /// What the value means, in words.
    pub fn note(self) -> (text: &'static str)
        ensures
            text@ == self.note_of(),
    {
        match self {
            RegistryEntryStatus::Active => "this repository is registered as a neighbour and its entry still counts — a link \
                resolved against it is a current claim rather than a historical one",
            RegistryEntryStatus::Tombstoned => "the entry was removed and kept rather than deleted, so its identity survives and \
                a link that rested on it can still say which entry went away and when — a deleted \
                row could not have reported its own ending",
        }
    }

    /// Two different values never share a sentence.
    pub proof fn lemma_notes_distinct(a: RegistryEntryStatus, b: RegistryEntryStatus)
        ensures
            a.note_of() == b.note_of() ==> a == b,
    {
        reveal_strlit("this repository is registered as a neighbour and its entry still counts — a link \
            resolved against it is a current claim rather than a historical one");
        reveal_strlit("the entry was removed and kept rather than deleted, so its identity survives and \
            a link that rested on it can still say which entry went away and when — a deleted \
            row could not have reported its own ending");
        if a.note_of() == b.note_of() {
            assert(a.note_of().len() == b.note_of().len());
        }
    }

}

impl core::str::FromStr for RegistryEntryStatus {
    type Err = NerveError;

    fn from_str(text: &str) -> (parsed: Result<RegistryEntryStatus, NerveError>)
        ensures
            match parsed {
                Ok(value) => RegistryEntryStatus::parse_name(text@) == Some(value),
                Err(e) => RegistryEntryStatus::parse_name(text@) is None
                    && (e matches NerveError::UnknownVocabularyValue { vocabulary, value }
                    && vocabulary@ == "RegistryEntryStatus"@ && value@ == text@),
            },
    {
        match RegistryEntryStatus::from_name(text) {
            Some(value) => Ok(value),
            None => Err(NerveError::unknown("RegistryEntryStatus", text)),
        }
    }
}

/// Which stated declaration a cross-repository link was drawn from.
#[derive(Debug, Clone, Copy, PartialEq, Eq, Structural, PartialOrd, Ord, Hash)]
pub enum ContractResolutionMethod {
    /// A package manifest names the dependency directly — a `file:` specifier, a path dependency.
    ManifestDeclared,
    /// A workspace declaration lists the target as a member of the same workspace.
    WorkspaceDeclared,
    /// A path dependency was followed to the directory it names, and that directory's own manifest
    PathDependencyResolved,
    /// An import specifier was resolved through the target package's export map to a file.
    ExportMapResolved,
}

impl ContractResolutionMethod {
    /// Every value, in declaration order.
    pub const ALL: [ContractResolutionMethod; 4] = [
        ContractResolutionMethod::ManifestDeclared,
        ContractResolutionMethod::WorkspaceDeclared,
        ContractResolutionMethod::PathDependencyResolved,
        ContractResolutionMethod::ExportMapResolved,
    ];

    /// The canonical name of a value.
    pub open spec fn name_of(self) -> Seq<char> {
        match self {
            ContractResolutionMethod::ManifestDeclared => "manifest_declared"@,
            ContractResolutionMethod::WorkspaceDeclared => "workspace_declared"@,
            ContractResolutionMethod::PathDependencyResolved => "path_dependency_resolved"@,
            ContractResolutionMethod::ExportMapResolved => "export_map_resolved"@,
        }
    }

    /// Canonical name, as stored and as carried in responses.
    pub fn as_str(self) -> (text: &'static str)
        ensures
            text@ == self.name_of(),
    {
        match self {
            ContractResolutionMethod::ManifestDeclared => "manifest_declared",
            ContractResolutionMethod::WorkspaceDeclared => "workspace_declared",
            ContractResolutionMethod::PathDependencyResolved => "path_dependency_resolved",
            ContractResolutionMethod::ExportMapResolved => "export_map_resolved",
        }
    }

    /// The value whose canonical name is `text`, if any.
    pub open spec fn parse_name(text: Seq<char>) -> Option<ContractResolutionMethod> {
        if text == "manifest_declared"@ {
            Some(ContractResolutionMethod::ManifestDeclared)
        } else if text == "workspace_declared"@ {
            Some(ContractResolutionMethod::WorkspaceDeclared)
        } else if text == "path_dependency_resolved"@ {
            Some(ContractResolutionMethod::PathDependencyResolved)
        } else if text == "export_map_resolved"@ {
            Some(ContractResolutionMethod::ExportMapResolved)
        } else {
            None
        }
    }

    /// The value whose canonical name is `text`, if any.
    pub fn from_name(text: &str) -> (found: Option<ContractResolutionMethod>)
        ensures
            found == ContractResolutionMethod::parse_name(text@),
    {
        if str_eq(text, "manifest_declared") {
            return Some(ContractResolutionMethod::ManifestDeclared);
        }
        if str_eq(text, "workspace_declared") {
            return Some(ContractResolutionMethod::WorkspaceDeclared);
        }
        if str_eq(text, "path_dependency_resolved") {
            return Some(ContractResolutionMethod::PathDependencyResolved);
        }
        if str_eq(text, "export_map_resolved") {
            return Some(ContractResolutionMethod::ExportMapResolved);
        }
        None
    }

    /// Two different values never share a canonical name.
    pub proof fn lemma_names_distinct(a: ContractResolutionMethod, b: ContractResolutionMethod)
        ensures
            a.name_of() == b.name_of() ==> a == b,
    {
        reveal_strlit("manifest_declared");
        reveal_strlit("workspace_declared");
        reveal_strlit("path_dependency_resolved");
        reveal_strlit("export_map_resolved");
        if a.name_of() == b.name_of() {
            assert(a.name_of().len() == b.name_of().len());
        }
    }

    /// Reading a canonical name back gives the value it names.
    pub proof fn lemma_name_round_trip(value: ContractResolutionMethod)
        ensures
            ContractResolutionMethod::parse_name(value.name_of()) == Some(value),
    {
        ContractResolutionMethod::lemma_names_distinct(ContractResolutionMethod::ManifestDeclared, value);
        ContractResolutionMethod::lemma_names_distinct(ContractResolutionMethod::WorkspaceDeclared, value);
        ContractResolutionMethod::lemma_names_distinct(ContractResolutionMethod::PathDependencyResolved, value);
        ContractResolutionMethod::lemma_names_distinct(ContractResolutionMethod::ExportMapResolved, value);
    }

    /// The sentence that explains a value.
    pub open spec fn note_of(self) -> Seq<char> {
        match self {
            ContractResolutionMethod::ManifestDeclared => "a package manifest in this repository names the target directly, so the link is \
                quoted from a declaration rather than inferred from a resemblance"@,
            ContractResolutionMethod::WorkspaceDeclared => "a workspace declaration lists the target as a member, so the two are stated to \
                belong to one build rather than found beside each other on disk"@,
            ContractResolutionMethod::PathDependencyResolved => "a declared path dependency was followed to the directory it names and that \
                directory's own manifest was read, so both ends of the link are stated in a file"@,
            ContractResolutionMethod::ExportMapResolved => "an import specifier was resolved through the target package's declared export \
                map, so the file at the far end is the one the package says that specifier means"@,
        }
    }

    /// What the value means, in words.
    pub fn note(self) -> (text: &'static str)
        ensures
            text@ == self.note_of(),
    {
        match self {
            ContractResolutionMethod::ManifestDeclared => "a package manifest in this repository names the target directly, so the link is \
                quoted from a declaration rather than inferred from a resemblance",
            ContractResolutionMethod::WorkspaceDeclared => "a workspace declaration lists the target as a member, so the two are stated to \
                belong to one build rather than found beside each other on disk",
            ContractResolutionMethod::PathDependencyResolved => "a declared path dependency was followed to the directory it names and that \
                directory's own manifest was read, so both ends of the link are stated in a file",
            ContractResolutionMethod::ExportMapResolved => "an import specifier was resolved through the target package's declared export \
                map, so the file at the far end is the one the package says that specifier means",
        }
    }

    /// Two different values never share a sentence.
    pub proof fn lemma_notes_distinct(a: ContractResolutionMethod, b: ContractResolutionMethod)
        ensures
            a.note_of() == b.note_of() ==> a == b,
    {
        reveal_strlit("a package manifest in this repository names the target directly, so the link is \
            quoted from a declaration rather than inferred from a resemblance");
        reveal_strlit("a workspace declaration lists the target as a member, so the two are stated to \
            belong to one build rather than found beside each other on disk");
        reveal_strlit("a declared path dependency was followed to the directory it names and that \
            directory's own manifest was read, so both ends of the link are stated in a file");
        reveal_strlit("an import specifier was resolved through the target package's declared export \
            map, so the file at the far end is the one the package says that specifier means");
        if a.note_of() == b.note_of() {
            assert(a.note_of().len() == b.note_of().len());
        }
    }

}

impl core::str::FromStr for ContractResolutionMethod {
    type Err = NerveError;

    fn from_str(text: &str) -> (parsed: Result<ContractResolutionMethod, NerveError>)
        ensures
            match parsed {
                Ok(value) => ContractResolutionMethod::parse_name(text@) == Some(value),
                Err(e) => ContractResolutionMethod::parse_name(text@) is None
                    && (e matches NerveError::UnknownVocabularyValue { vocabulary, value }
                    && vocabulary@ == "ContractResolutionMethod"@ && value@ == text@),
            },
    {
        match ContractResolutionMethod::from_name(text) {
            Some(value) => Ok(value),
            None => Err(NerveError::unknown("ContractResolutionMethod", text)),
        }
    }
}

/// Whether a recorded cross-repository link is still claimed, or has been retired.
#[derive(Debug, Clone, Copy, PartialEq, Eq, Structural, PartialOrd, Ord, Hash)]
pub enum ContractLinkStatus {
    /// The declaration was present the last time this repository was read.
    Active,
    /// The declaration is gone, or its registry entry was tombstoned. `withdrawn_at` says when.
    Withdrawn,
}

impl ContractLinkStatus {
    /// Every value, in declaration order.
    pub const ALL: [ContractLinkStatus; 2] = [
        ContractLinkStatus::Active,
        ContractLinkStatus::Withdrawn,
    ];

    /// The canonical name of a value.
    pub open spec fn name_of(self) -> Seq<char> {
        match self {
            ContractLinkStatus::Active => "active"@,
            ContractLinkStatus::Withdrawn => "withdrawn"@,
        }
    }

    /// Canonical name, as stored and as carried in responses.
    pub fn as_str(self) -> (text: &'static str)
        ensures
            text@ == self.name_of(),
    {
        match self {
            ContractLinkStatus::Active => "active",
            ContractLinkStatus::Withdrawn => "withdrawn",
        }
    }

    /// The value whose canonical name is `text`, if any.
    pub open spec fn parse_name(text: Seq<char>) -> Option<ContractLinkStatus> {
        if text == "active"@ {
            Some(ContractLinkStatus::Active)
        } else if text == "withdrawn"@ {
            Some(ContractLinkStatus::Withdrawn)
        } else {
            None
        }
    }

    /// The value whose canonical name is `text`, if any.
    pub fn from_name(text: &str) -> (found: Option<ContractLinkStatus>)
        ensures
            found == ContractLinkStatus::parse_name(text@),
    {
        if str_eq(text, "active") {
            return Some(ContractLinkStatus::Active);
        }
        if str_eq(text, "withdrawn") {
            return Some(ContractLinkStatus::Withdrawn);
        }
        None
    }

    /// Two different values never share a canonical name.
    pub proof fn lemma_names_distinct(a: ContractLinkStatus, b: ContractLinkStatus)
        ensures
            a.name_of() == b.name_of() ==> a == b,
    {
        reveal_strlit("active");
        reveal_strlit("withdrawn");
        if a.name_of() == b.name_of() {
            assert(a.name_of().len() == b.name_of().len());
        }
    }

    /// Reading a canonical name back gives the value it names.
    pub proof fn lemma_name_round_trip(value: ContractLinkStatus)
        ensures
            ContractLinkStatus::parse_name(value.name_of()) == Some(value),
    {
        ContractLinkStatus::lemma_names_distinct(ContractLinkStatus::Active, value);
        ContractLinkStatus::lemma_names_distinct(ContractLinkStatus::Withdrawn, value);
    }

    /// The sentence that explains a value.
    pub open spec fn note_of(self) -> Seq<char> {
        match self {
            ContractLinkStatus::Active => "the declaration this link was drawn from was still in the file the last time this \
                repository was read — which says nothing on its own about the state of the \
                repository at the far end"@,
            ContractLinkStatus::Withdrawn => "the declaration is gone, or the registry entry it pointed through was removed. \
                The row is kept so the ending can be reported; deleting it would leave the link \
                having silently never existed"@,
        }
    }

    /// What the value means, in words.
    pub fn note(self) -> (text: &'static str)
        ensures
            text@ == self.note_of(),
    {
        match self {
            ContractLinkStatus::Active => "the declaration this link was drawn from was still in the file the last time this \
                repository was read — which says nothing on its own about the state of the \
                repository at the far end",
            ContractLinkStatus::Withdrawn => "the declaration is gone, or the registry entry it pointed through was removed. \
                The row is kept so the ending can be reported; deleting it would leave the link \
                having silently never existed",
        }
    }

    /// Two different values never share a sentence.
    pub proof fn lemma_notes_distinct(a: ContractLinkStatus, b: ContractLinkStatus)
        ensures
            a.note_of() == b.note_of() ==> a == b,
    {
        reveal_strlit("the declaration this link was drawn from was still in the file the last time this \
            repository was read — which says nothing on its own about the state of the \
            repository at the far end");
        reveal_strlit("the declaration is gone, or the registry entry it pointed through was removed. \
            The row is kept so the ending can be reported; deleting it would leave the link \
            having silently never existed");
        if a.note_of() == b.note_of() {
            assert(a.note_of().len() == b.note_of().len());
        }
    }

}

impl core::str::FromStr for ContractLinkStatus {
    type Err = NerveError;

    fn from_str(text: &str) -> (parsed: Result<ContractLinkStatus, NerveError>)
        ensures
            match parsed {
                Ok(value) => ContractLinkStatus::parse_name(text@) == Some(value),
                Err(e) => ContractLinkStatus::parse_name(text@) is None
                    && (e matches NerveError::UnknownVocabularyValue { vocabulary, value }
                    && vocabulary@ == "ContractLinkStatus"@ && value@ == text@),
            },
    {
        match ContractLinkStatus::from_name(text) {
            Some(value) => Ok(value),
            None => Err(NerveError::unknown("ContractLinkStatus", text)),
        }
    }
}

/// The ways a cross-repository link can have stopped describing the world.
#[derive(Debug, Clone, Copy, PartialEq, Eq, Structural, PartialOrd, Ord, Hash)]
pub enum ContractFreshness {
    /// The source repository moved on from the state the link was resolved at.
    SourceChanged,
    /// The target repository moved on from the state recorded in the link's snapshot.
    TargetChanged,
    /// Both ends moved.
    BothChanged,
    /// The version the source expects and the version the target declares disagree.
    ContractVersionMismatch,
    /// Nothing is at the registered path any more.
    TargetRepositoryMissing,
    /// Something is at the registered path, and it is a **different** repository.
    TargetRepositoryMoved,
    /// The manifest the link was quoted from is no longer in the source repository.
    ContractFileMissing,
    /// More than one registered repository declares this contract identity.
    DuplicateContractIdentity,
    /// The contract is declared more than once, with declarations that disagree.
    ConflictingDefinitions,
    /// The target repository is registered and readable, but the part this link names was never
    TargetPartiallyIndexed,
    /// The declaration this link was drawn from is gone from the manifest.
    ContractDeleted,
    /// The registry entry the link resolved through was tombstoned.
    RegistryEntryRemoved,
}

impl ContractFreshness {
    /// Every value, in declaration order.
    pub const ALL: [ContractFreshness; 12] = [
        ContractFreshness::SourceChanged,
        ContractFreshness::TargetChanged,
        ContractFreshness::BothChanged,
        ContractFreshness::ContractVersionMismatch,
        ContractFreshness::TargetRepositoryMissing,
        ContractFreshness::TargetRepositoryMoved,
        ContractFreshness::ContractFileMissing,
        ContractFreshness::DuplicateContractIdentity,
        ContractFreshness::ConflictingDefinitions,
        ContractFreshness::TargetPartiallyIndexed,
        ContractFreshness::ContractDeleted,
        ContractFreshness::RegistryEntryRemoved,
    ];

    /// The canonical name of a value.
    pub open spec fn name_of(self) -> Seq<char> {
        match self {
            ContractFreshness::SourceChanged => "source_changed"@,
            ContractFreshness::TargetChanged => "target_changed"@,
            ContractFreshness::BothChanged => "both_changed"@,
            ContractFreshness::ContractVersionMismatch => "contract_version_mismatch"@,
            ContractFreshness::TargetRepositoryMissing => "target_repository_missing"@,
            ContractFreshness::TargetRepositoryMoved => "target_repository_moved"@,
            ContractFreshness::ContractFileMissing => "contract_file_missing"@,
            ContractFreshness::DuplicateContractIdentity => "duplicate_contract_identity"@,
            ContractFreshness::ConflictingDefinitions => "conflicting_definitions"@,
            ContractFreshness::TargetPartiallyIndexed => "target_partially_indexed"@,
            ContractFreshness::ContractDeleted => "contract_deleted"@,
            ContractFreshness::RegistryEntryRemoved => "registry_entry_removed"@,
        }
    }

    /// Canonical name, as stored and as carried in responses.
    pub fn as_str(self) -> (text: &'static str)
        ensures
            text@ == self.name_of(),
    {
        match self {
            ContractFreshness::SourceChanged => "source_changed",
            ContractFreshness::TargetChanged => "target_changed",
            ContractFreshness::BothChanged => "both_changed",
            ContractFreshness::ContractVersionMismatch => "contract_version_mismatch",
            ContractFreshness::TargetRepositoryMissing => "target_repository_missing",
            ContractFreshness::TargetRepositoryMoved => "target_repository_moved",
            ContractFreshness::ContractFileMissing => "contract_file_missing",
            ContractFreshness::DuplicateContractIdentity => "duplicate_contract_identity",
            ContractFreshness::ConflictingDefinitions => "conflicting_definitions",
            ContractFreshness::TargetPartiallyIndexed => "target_partially_indexed",
            ContractFreshness::ContractDeleted => "contract_deleted",
            ContractFreshness::RegistryEntryRemoved => "registry_entry_removed",
        }
    }

    /// The value whose canonical name is `text`, if any.
    pub open spec fn parse_name(text: Seq<char>) -> Option<ContractFreshness> {
        if text == "source_changed"@ {
            Some(ContractFreshness::SourceChanged)
        } else if text == "target_changed"@ {
            Some(ContractFreshness::TargetChanged)
        } else if text == "both_changed"@ {
            Some(ContractFreshness::BothChanged)
        } else if text == "contract_version_mismatch"@ {
            Some(ContractFreshness::ContractVersionMismatch)
        } else if text == "target_repository_missing"@ {
            Some(ContractFreshness::TargetRepositoryMissing)
        } else if text == "target_repository_moved"@ {
            Some(ContractFreshness::TargetRepositoryMoved)
        } else if text == "contract_file_missing"@ {
            Some(ContractFreshness::ContractFileMissing)
        } else if text == "duplicate_contract_identity"@ {
            Some(ContractFreshness::DuplicateContractIdentity)
        } else if text == "conflicting_definitions"@ {
            Some(ContractFreshness::ConflictingDefinitions)
        } else if text == "target_partially_indexed"@ {
            Some(ContractFreshness::TargetPartiallyIndexed)
        } else if text == "contract_deleted"@ {
            Some(ContractFreshness::ContractDeleted)
        } else if text == "registry_entry_removed"@ {
            Some(ContractFreshness::RegistryEntryRemoved)
        } else {
            None
        }
    }

    /// The value whose canonical name is `text`, if any.
    pub fn from_name(text: &str) -> (found: Option<ContractFreshness>)
        ensures
            found == ContractFreshness::parse_name(text@),
    {
        if str_eq(text, "source_changed") {
            return Some(ContractFreshness::SourceChanged);
        }
        if str_eq(text, "target_changed") {
            return Some(ContractFreshness::TargetChanged);
        }
        if str_eq(text, "both_changed") {
            return Some(ContractFreshness::BothChanged);
        }
        if str_eq(text, "contract_version_mismatch") {
            return Some(ContractFreshness::ContractVersionMismatch);
        }
        if str_eq(text, "target_repository_missing") {
            return Some(ContractFreshness::TargetRepositoryMissing);
        }
        if str_eq(text, "target_repository_moved") {
            return Some(ContractFreshness::TargetRepositoryMoved);
        }
        if str_eq(text, "contract_file_missing") {
            return Some(ContractFreshness::ContractFileMissing);
        }
        if str_eq(text, "duplicate_contract_identity") {
            return Some(ContractFreshness::DuplicateContractIdentity);
        }
        if str_eq(text, "conflicting_definitions") {
            return Some(ContractFreshness::ConflictingDefinitions);
        }
        if str_eq(text, "target_partially_indexed") {
            return Some(ContractFreshness::TargetPartiallyIndexed);
        }
        if str_eq(text, "contract_deleted") {
            return Some(ContractFreshness::ContractDeleted);
        }
        if str_eq(text, "registry_entry_removed") {
            return Some(ContractFreshness::RegistryEntryRemoved);
        }
        None
    }

    /// Two different values never share a canonical name.
    pub proof fn lemma_names_distinct(a: ContractFreshness, b: ContractFreshness)
        ensures
            a.name_of() == b.name_of() ==> a == b,
    {
        reveal_strlit("source_changed");
        reveal_strlit("target_changed");
        reveal_strlit("both_changed");
        reveal_strlit("contract_version_mismatch");
        reveal_strlit("target_repository_missing");
        reveal_strlit("target_repository_moved");
        reveal_strlit("contract_file_missing");
        reveal_strlit("duplicate_contract_identity");
        reveal_strlit("conflicting_definitions");
        reveal_strlit("target_partially_indexed");
        reveal_strlit("contract_deleted");
        reveal_strlit("registry_entry_removed");
        if a.name_of() == b.name_of() {
            assert(a.name_of().len() == b.name_of().len());
            assert(a.name_of()[0] == b.name_of()[0]);
        }
    }

    /// Reading a canonical name back gives the value it names.
    pub proof fn lemma_name_round_trip(value: ContractFreshness)
        ensures
            ContractFreshness::parse_name(value.name_of()) == Some(value),
    {
        ContractFreshness::lemma_names_distinct(ContractFreshness::SourceChanged, value);
        ContractFreshness::lemma_names_distinct(ContractFreshness::TargetChanged, value);
        ContractFreshness::lemma_names_distinct(ContractFreshness::BothChanged, value);
        ContractFreshness::lemma_names_distinct(ContractFreshness::ContractVersionMismatch, value);
        ContractFreshness::lemma_names_distinct(ContractFreshness::TargetRepositoryMissing, value);
        ContractFreshness::lemma_names_distinct(ContractFreshness::TargetRepositoryMoved, value);
        ContractFreshness::lemma_names_distinct(ContractFreshness::ContractFileMissing, value);
        ContractFreshness::lemma_names_distinct(ContractFreshness::DuplicateContractIdentity, value);
        ContractFreshness::lemma_names_distinct(ContractFreshness::ConflictingDefinitions, value);
        ContractFreshness::lemma_names_distinct(ContractFreshness::TargetPartiallyIndexed, value);
        ContractFreshness::lemma_names_distinct(ContractFreshness::ContractDeleted, value);
        ContractFreshness::lemma_names_distinct(ContractFreshness::RegistryEntryRemoved, value);
    }

    /// The sentence that explains a value.
    pub open spec fn note_of(self) -> Seq<char> {
        match self {
            ContractFreshness::SourceChanged => "this repository has moved on from the state the link was resolved at, so the \
                declaration may no longer read the way it did — a qualification about this end \
                only"@,
            ContractFreshness::TargetChanged => "the repository at the far end has moved on from the state recorded in the link's \
                snapshot, so what the snapshot names may no longer be what is there"@,
            ContractFreshness::BothChanged => "both repositories have moved on since the link was resolved, so neither end of it \
                has been re-checked"@,
            ContractFreshness::ContractVersionMismatch => "the version this repository expects and the version the target declares are not \
                the same number — two recorded values that disagree, not a judgement about which \
                is right"@,
            ContractFreshness::TargetRepositoryMissing => "nothing is at the registered path any more. This is the ordinary broken link, and \
                it is a different fact from a path that now holds some other repository"@,
            ContractFreshness::TargetRepositoryMoved => "something is at the registered path and it is a different repository from the one \
                registered. This is the dangerous one: identity is checked against the recorded \
                repository id rather than the path, because an entry silently re-pointed at \
                another checkout would make every link through it describe the wrong repository"@,
            ContractFreshness::ContractFileMissing => "the manifest this link was quoted from is no longer in this repository, so there \
                is nothing left to re-read the declaration out of"@,
            ContractFreshness::DuplicateContractIdentity => "more than one registered repository declares this contract identity, so which one \
                the link means is not established — every candidate is reported and none is \
                promoted"@,
            ContractFreshness::ConflictingDefinitions => "the contract is declared more than once and the declarations disagree, so there \
                is no single stated fact to quote"@,
            ContractFreshness::TargetPartiallyIndexed => "the target repository is readable, and the part this link names was never indexed \
                there. Nothing was observed to change: this is unknown rather than stale, and \
                reporting unknown as current is how a truncated sweep becomes a clean bill of \
                health"@,
            ContractFreshness::ContractDeleted => "the declaration this link was drawn from is gone from the manifest, so the link is \
                a record of something that used to be stated rather than something that is"@,
            ContractFreshness::RegistryEntryRemoved => "the registry entry this link resolved through was removed. The entry is kept as a \
                tombstone precisely so this can be said: a deleted entry would have left the link \
                pointing at nothing nameable"@,
        }
    }

    /// What the value means, in words.
    pub fn note(self) -> (text: &'static str)
        ensures
            text@ == self.note_of(),
    {
        match self {
            ContractFreshness::SourceChanged => "this repository has moved on from the state the link was resolved at, so the \
                declaration may no longer read the way it did — a qualification about this end \
                only",
            ContractFreshness::TargetChanged => "the repository at the far end has moved on from the state recorded in the link's \
                snapshot, so what the snapshot names may no longer be what is there",
            ContractFreshness::BothChanged => "both repositories have moved on since the link was resolved, so neither end of it \
                has been re-checked",
            ContractFreshness::ContractVersionMismatch => "the version this repository expects and the version the target declares are not \
                the same number — two recorded values that disagree, not a judgement about which \
                is right",
            ContractFreshness::TargetRepositoryMissing => "nothing is at the registered path any more. This is the ordinary broken link, and \
                it is a different fact from a path that now holds some other repository",
            ContractFreshness::TargetRepositoryMoved => "something is at the registered path and it is a different repository from the one \
                registered. This is the dangerous one: identity is checked against the recorded \
                repository id rather than the path, because an entry silently re-pointed at \
                another checkout would make every link through it describe the wrong repository",
            ContractFreshness::ContractFileMissing => "the manifest this link was quoted from is no longer in this repository, so there \
                is nothing left to re-read the declaration out of",
            ContractFreshness::DuplicateContractIdentity => "more than one registered repository declares this contract identity, so which one \
                the link means is not established — every candidate is reported and none is \
                promoted",
            ContractFreshness::ConflictingDefinitions => "the contract is declared more than once and the declarations disagree, so there \
                is no single stated fact to quote",
            ContractFreshness::TargetPartiallyIndexed => "the target repository is readable, and the part this link names was never indexed \
                there. Nothing was observed to change: this is unknown rather than stale, and \
                reporting unknown as current is how a truncated sweep becomes a clean bill of \
                health",
            ContractFreshness::ContractDeleted => "the declaration this link was drawn from is gone from the manifest, so the link is \
                a record of something that used to be stated rather than something that is",
            ContractFreshness::RegistryEntryRemoved => "the registry entry this link resolved through was removed. The entry is kept as a \
                tombstone precisely so this can be said: a deleted entry would have left the link \
                pointing at nothing nameable",
        }
    }

    /// Two different values never share a sentence.
    pub proof fn lemma_notes_distinct(a: ContractFreshness, b: ContractFreshness)
        ensures
            a.note_of() == b.note_of() ==> a == b,
    {
        reveal_strlit("this repository has moved on from the state the link was resolved at, so the \
            declaration may no longer read the way it did — a qualification about this end \
            only");
        reveal_strlit("the repository at the far end has moved on from the state recorded in the link's \
            snapshot, so what the snapshot names may no longer be what is there");
        reveal_strlit("both repositories have moved on since the link was resolved, so neither end of it \
            has been re-checked");
        reveal_strlit("the version this repository expects and the version the target declares are not \
            the same number — two recorded values that disagree, not a judgement about which \
            is right");
        reveal_strlit("nothing is at the registered path any more. This is the ordinary broken link, and \
            it is a different fact from a path that now holds some other repository");
        reveal_strlit("something is at the registered path and it is a different repository from the one \
            registered. This is the dangerous one: identity is checked against the recorded \
            repository id rather than the path, because an entry silently re-pointed at \
            another checkout would make every link through it describe the wrong repository");
        reveal_strlit("the manifest this link was quoted from is no longer in this repository, so there \
            is nothing left to re-read the declaration out of");
        reveal_strlit("more than one registered repository declares this contract identity, so which one \
            the link means is not established — every candidate is reported and none is \
            promoted");
        reveal_strlit("the contract is declared more than once and the declarations disagree, so there \
            is no single stated fact to quote");
        reveal_strlit("the target repository is readable, and the part this link names was never indexed \
            there. Nothing was observed to change: this is unknown rather than stale, and \
            reporting unknown as current is how a truncated sweep becomes a clean bill of \
            health");
        reveal_strlit("the declaration this link was drawn from is gone from the manifest, so the link is \
            a record of something that used to be stated rather than something that is");
        reveal_strlit("the registry entry this link resolved through was removed. The entry is kept as a \
            tombstone precisely so this can be said: a deleted entry would have left the link \
            pointing at nothing nameable");
        if a.note_of() == b.note_of() {
            assert(a.note_of().len() == b.note_of().len());
        }
    }

}

impl core::str::FromStr for ContractFreshness {
    type Err = NerveError;

    fn from_str(text: &str) -> (parsed: Result<ContractFreshness, NerveError>)
        ensures
            match parsed {
                Ok(value) => ContractFreshness::parse_name(text@) == Some(value),
                Err(e) => ContractFreshness::parse_name(text@) is None
                    && (e matches NerveError::UnknownVocabularyValue { vocabulary, value }
                    && vocabulary@ == "ContractFreshness"@ && value@ == text@),
            },
    {
        match ContractFreshness::from_name(text) {
            Some(value) => Ok(value),
            None => Err(NerveError::unknown("ContractFreshness", text)),
        }
    }
}

/// The lifecycle a human-confirmed memory record is stored in.
#[derive(Debug, Clone, Copy, PartialEq, Eq, Structural, PartialOrd, Ord, Hash)]
pub enum MemoryStatus {
    /// Written down and not yet confirmed by a human at the CLI.
    Proposed,
    /// Confirmed, and the current statement about its subject.
    Active,
    /// Replaced by a later record, which names this one through `supersedes_memory_id`.
    Superseded,
    /// It stopped being true and **nothing** replaced it. `invalidated_at` says when.
    Invalidated,
}

impl MemoryStatus {
    /// Every value, in declaration order.
    pub const ALL: [MemoryStatus; 4] = [
        MemoryStatus::Proposed,
        MemoryStatus::Active,
        MemoryStatus::Superseded,
        MemoryStatus::Invalidated,
    ];

    /// The canonical name of a value.
    pub open spec fn name_of(self) -> Seq<char> {
        match self {
            MemoryStatus::Proposed => "proposed"@,
            MemoryStatus::Active => "active"@,
            MemoryStatus::Superseded => "superseded"@,
            MemoryStatus::Invalidated => "invalidated"@,
        }
    }

    /// Canonical name, as stored and as carried in responses.
    pub fn as_str(self) -> (text: &'static str)
        ensures
            text@ == self.name_of(),
    {
        match self {
            MemoryStatus::Proposed => "proposed",
            MemoryStatus::Active => "active",
            MemoryStatus::Superseded => "superseded",
            MemoryStatus::Invalidated => "invalidated",
        }
    }

    /// The value whose canonical name is `text`, if any.
    pub open spec fn parse_name(text: Seq<char>) -> Option<MemoryStatus> {
        if text == "proposed"@ {
            Some(MemoryStatus::Proposed)
        } else if text == "active"@ {
            Some(MemoryStatus::Active)
        } else if text == "superseded"@ {
            Some(MemoryStatus::Superseded)
        } else if text == "invalidated"@ {
            Some(MemoryStatus::Invalidated)
        } else {
            None
        }
    }

    /// The value whose canonical name is `text`, if any.
    pub fn from_name(text: &str) -> (found: Option<MemoryStatus>)
        ensures
            found == MemoryStatus::parse_name(text@),
    {
        if str_eq(text, "proposed") {
            return Some(MemoryStatus::Proposed);
        }
        if str_eq(text, "active") {
            return Some(MemoryStatus::Active);
        }
        if str_eq(text, "superseded") {
            return Some(MemoryStatus::Superseded);
        }
        if str_eq(text, "invalidated") {
            return Some(MemoryStatus::Invalidated);
        }
        None
    }

    /// Two different values never share a canonical name.
    pub proof fn lemma_names_distinct(a: MemoryStatus, b: MemoryStatus)
        ensures
            a.name_of() == b.name_of() ==> a == b,
    {
        reveal_strlit("proposed");
        reveal_strlit("active");
        reveal_strlit("superseded");
        reveal_strlit("invalidated");
        if a.name_of() == b.name_of() {
            assert(a.name_of().len() == b.name_of().len());
        }
    }

    /// Reading a canonical name back gives the value it names.
    pub proof fn lemma_name_round_trip(value: MemoryStatus)
        ensures
            MemoryStatus::parse_name(value.name_of()) == Some(value),
    {
        MemoryStatus::lemma_names_distinct(MemoryStatus::Proposed, value);
        MemoryStatus::lemma_names_distinct(MemoryStatus::Active, value);
        MemoryStatus::lemma_names_distinct(MemoryStatus::Superseded, value);
        MemoryStatus::lemma_names_distinct(MemoryStatus::Invalidated, value);
    }

    /// The sentence that explains a value.
    pub open spec fn note_of(self) -> Seq<char> {
        match self {
            MemoryStatus::Proposed => "written down and not yet confirmed by a human at the command line — it is on \
                record, and nothing in this product treats it as settled"@,
            MemoryStatus::Active => "confirmed, and the current statement about its subject. Whether it is still true \
                of the tree is a separate, query-time question, answered against the repository \
                state it was anchored to rather than stored as a score"@,
            MemoryStatus::Superseded => "a later record replaced it, and that record names this one. The content is kept \
                unchanged: superseding rewrites nothing and deletes nothing, so what was once \
                believed stays readable"@,
            MemoryStatus::Invalidated => "it stopped being true and nothing replaced it — which is a different fact from \
                being superseded, and the one a returning reader most often needs, because there \
                is no successor to read instead"@,
        }
    }

    /// What the value means, in words.
    pub fn note(self) -> (text: &'static str)
        ensures
            text@ == self.note_of(),
    {
        match self {
            MemoryStatus::Proposed => "written down and not yet confirmed by a human at the command line — it is on \
                record, and nothing in this product treats it as settled",
            MemoryStatus::Active => "confirmed, and the current statement about its subject. Whether it is still true \
                of the tree is a separate, query-time question, answered against the repository \
                state it was anchored to rather than stored as a score",
            MemoryStatus::Superseded => "a later record replaced it, and that record names this one. The content is kept \
                unchanged: superseding rewrites nothing and deletes nothing, so what was once \
                believed stays readable",
            MemoryStatus::Invalidated => "it stopped being true and nothing replaced it — which is a different fact from \
                being superseded, and the one a returning reader most often needs, because there \
                is no successor to read instead",
        }
    }

    /// Two different values never share a sentence.
    pub proof fn lemma_notes_distinct(a: MemoryStatus, b: MemoryStatus)
        ensures
            a.note_of() == b.note_of() ==> a == b,
    {
        reveal_strlit("written down and not yet confirmed by a human at the command line — it is on \
            record, and nothing in this product treats it as settled");
        reveal_strlit("confirmed, and the current statement about its subject. Whether it is still true \
            of the tree is a separate, query-time question, answered against the repository \
            state it was anchored to rather than stored as a score");
        reveal_strlit("a later record replaced it, and that record names this one. The content is kept \
            unchanged: superseding rewrites nothing and deletes nothing, so what was once \
            believed stays readable");
        reveal_strlit("it stopped being true and nothing replaced it — which is a different fact from \
            being superseded, and the one a returning reader most often needs, because there \
            is no successor to read instead");
        if a.note_of() == b.note_of() {
            assert(a.note_of().len() == b.note_of().len());
        }
    }

}

impl core::str::FromStr for MemoryStatus {
    type Err = NerveError;

    fn from_str(text: &str) -> (parsed: Result<MemoryStatus, NerveError>)
        ensures
            match parsed {
                Ok(value) => MemoryStatus::parse_name(text@) == Some(value),
                Err(e) => MemoryStatus::parse_name(text@) is None
                    && (e matches NerveError::UnknownVocabularyValue { vocabulary, value }
                    && vocabulary@ == "MemoryStatus"@ && value@ == text@),
            },
    {
        match MemoryStatus::from_name(text) {
            Some(value) => Ok(value),
            None => Err(NerveError::unknown("MemoryStatus", text)),
        }
    }
}

/// Qualifications computed over stored memory rows at query time, and never written down.
#[derive(Debug, Clone, Copy, PartialEq, Eq, Structural, PartialOrd, Ord, Hash)]
pub enum MemoryView {
    /// Active, and anchored to a repository state that is no longer the current one.
    PotentiallyStale,
    /// More than one active record answers the same named claim about the same subject.
    Conflicted,
    /// More than one active record is about the same subject in the same scope. Not a disagreement.
    MultipleActive,
}

impl MemoryView {
    /// Every value, in declaration order.
    pub const ALL: [MemoryView; 3] = [
        MemoryView::PotentiallyStale,
        MemoryView::Conflicted,
        MemoryView::MultipleActive,
    ];

    /// The canonical name of a value.
    pub open spec fn name_of(self) -> Seq<char> {
        match self {
            MemoryView::PotentiallyStale => "potentially_stale"@,
            MemoryView::Conflicted => "conflicted"@,
            MemoryView::MultipleActive => "multiple_active"@,
        }
    }

    /// Canonical name, as stored and as carried in responses.
    pub fn as_str(self) -> (text: &'static str)
        ensures
            text@ == self.name_of(),
    {
        match self {
            MemoryView::PotentiallyStale => "potentially_stale",
            MemoryView::Conflicted => "conflicted",
            MemoryView::MultipleActive => "multiple_active",
        }
    }

    /// The value whose canonical name is `text`, if any.
    pub open spec fn parse_name(text: Seq<char>) -> Option<MemoryView> {
        if text == "potentially_stale"@ {
            Some(MemoryView::PotentiallyStale)
        } else if text == "conflicted"@ {
            Some(MemoryView::Conflicted)
        } else if text == "multiple_active"@ {
            Some(MemoryView::MultipleActive)
        } else {
            None
        }
    }

    /// The value whose canonical name is `text`, if any.
    pub fn from_name(text: &str) -> (found: Option<MemoryView>)
        ensures
            found == MemoryView::parse_name(text@),
    {
        if str_eq(text, "potentially_stale") {
            return Some(MemoryView::PotentiallyStale);
        }
        if str_eq(text, "conflicted") {
            return Some(MemoryView::Conflicted);
        }
        if str_eq(text, "multiple_active") {
            return Some(MemoryView::MultipleActive);
        }
        None
    }

    /// Two different values never share a canonical name.
    pub proof fn lemma_names_distinct(a: MemoryView, b: MemoryView)
        ensures
            a.name_of() == b.name_of() ==> a == b,
    {
        reveal_strlit("potentially_stale");
        reveal_strlit("conflicted");
        reveal_strlit("multiple_active");
        if a.name_of() == b.name_of() {
            assert(a.name_of().len() == b.name_of().len());
        }
    }

    /// Reading a canonical name back gives the value it names.
    pub proof fn lemma_name_round_trip(value: MemoryView)
        ensures
            MemoryView::parse_name(value.name_of()) == Some(value),
    {
        MemoryView::lemma_names_distinct(MemoryView::PotentiallyStale, value);
        MemoryView::lemma_names_distinct(MemoryView::Conflicted, value);
        MemoryView::lemma_names_distinct(MemoryView::MultipleActive, value);
    }

    /// The sentence that explains a value.
    pub open spec fn note_of(self) -> Seq<char> {
        match self {
            MemoryView::PotentiallyStale => "the repository has moved on from the state this record was anchored to, so it has \
                not been checked against what is there now. That is a reason to re-read it, not \
                evidence that it stopped being true — nothing here contradicts the human"@,
            MemoryView::Conflicted => "more than one active record answers the same named claim about the same subject, \
                so two confirmed statements disagree. Nerve reports the disagreement and does not \
                resolve it: the content is prose, and choosing a winner would be inventing an \
                answer neither record gave"@,
            MemoryView::MultipleActive => "several active records are about this subject, which is ordinary rather than a \
                contradiction — they answer no shared named claim, so nothing here says they \
                disagree"@,
        }
    }

    /// What the value means, in words.
    pub fn note(self) -> (text: &'static str)
        ensures
            text@ == self.note_of(),
    {
        match self {
            MemoryView::PotentiallyStale => "the repository has moved on from the state this record was anchored to, so it has \
                not been checked against what is there now. That is a reason to re-read it, not \
                evidence that it stopped being true — nothing here contradicts the human",
            MemoryView::Conflicted => "more than one active record answers the same named claim about the same subject, \
                so two confirmed statements disagree. Nerve reports the disagreement and does not \
                resolve it: the content is prose, and choosing a winner would be inventing an \
                answer neither record gave",
            MemoryView::MultipleActive => "several active records are about this subject, which is ordinary rather than a \
                contradiction — they answer no shared named claim, so nothing here says they \
                disagree",
        }
    }

    /// Two different values never share a sentence.
    pub proof fn lemma_notes_distinct(a: MemoryView, b: MemoryView)
        ensures
            a.note_of() == b.note_of() ==> a == b,
    {
        reveal_strlit("the repository has moved on from the state this record was anchored to, so it has \
            not been checked against what is there now. That is a reason to re-read it, not \
            evidence that it stopped being true — nothing here contradicts the human");
        reveal_strlit("more than one active record answers the same named claim about the same subject, \
            so two confirmed statements disagree. Nerve reports the disagreement and does not \
            resolve it: the content is prose, and choosing a winner would be inventing an \
            answer neither record gave");
        reveal_strlit("several active records are about this subject, which is ordinary rather than a \
            contradiction — they answer no shared named claim, so nothing here says they \
            disagree");
        if a.note_of() == b.note_of() {
            assert(a.note_of().len() == b.note_of().len());
        }
    }

}

impl core::str::FromStr for MemoryView {
    type Err = NerveError;

    fn from_str(text: &str) -> (parsed: Result<MemoryView, NerveError>)
        ensures
            match parsed {
                Ok(value) => MemoryView::parse_name(text@) == Some(value),
                Err(e) => MemoryView::parse_name(text@) is None
                    && (e matches NerveError::UnknownVocabularyValue { vocabulary, value }
                    && vocabulary@ == "MemoryView"@ && value@ == text@),
            },
    {
        match MemoryView::from_name(text) {
            Some(value) => Ok(value),
            None => Err(NerveError::unknown("MemoryView", text)),
        }
    }
}

/// What became of the thing a memory record is about, decided when the record is read.
#[derive(Debug, Clone, Copy, PartialEq, Eq, Structural, PartialOrd, Ord, Hash)]
pub enum MemorySubjectResolution {
    /// The snapshot's entity id is in the current index. The record attaches to it directly.
    Resolved,
    /// The snapshot's entity is gone and an `identity_link` names exactly one live successor.
    ResolvedThroughIdentityLink,
    /// The snapshot's entity is gone and no link reaches a live one. The record is still readable.
    Missing,
    /// More than one live successor is linked, and none of them is preferred over another.
    Ambiguous,
    /// There is no indexed repository state to check the subject against. Unknown, not missing.
    RepositoryStateUnavailable,
}

impl MemorySubjectResolution {
    /// Every value, in declaration order.
    pub const ALL: [MemorySubjectResolution; 5] = [
        MemorySubjectResolution::Resolved,
        MemorySubjectResolution::ResolvedThroughIdentityLink,
        MemorySubjectResolution::Missing,
        MemorySubjectResolution::Ambiguous,
        MemorySubjectResolution::RepositoryStateUnavailable,
    ];

    /// The canonical name of a value.
    pub open spec fn name_of(self) -> Seq<char> {
        match self {
            MemorySubjectResolution::Resolved => "resolved"@,
            MemorySubjectResolution::ResolvedThroughIdentityLink => "resolved_through_identity_link"@,
            MemorySubjectResolution::Missing => "missing"@,
            MemorySubjectResolution::Ambiguous => "ambiguous"@,
            MemorySubjectResolution::RepositoryStateUnavailable => "repository_state_unavailable"@,
        }
    }

    /// Canonical name, as stored and as carried in responses.
    pub fn as_str(self) -> (text: &'static str)
        ensures
            text@ == self.name_of(),
    {
        match self {
            MemorySubjectResolution::Resolved => "resolved",
            MemorySubjectResolution::ResolvedThroughIdentityLink => "resolved_through_identity_link",
            MemorySubjectResolution::Missing => "missing",
            MemorySubjectResolution::Ambiguous => "ambiguous",
            MemorySubjectResolution::RepositoryStateUnavailable => "repository_state_unavailable",
        }
    }

    /// The value whose canonical name is `text`, if any.
    pub open spec fn parse_name(text: Seq<char>) -> Option<MemorySubjectResolution> {
        if text == "resolved"@ {
            Some(MemorySubjectResolution::Resolved)
        } else if text == "resolved_through_identity_link"@ {
            Some(MemorySubjectResolution::ResolvedThroughIdentityLink)
        } else if text == "missing"@ {
            Some(MemorySubjectResolution::Missing)
        } else if text == "ambiguous"@ {
            Some(MemorySubjectResolution::Ambiguous)
        } else if text == "repository_state_unavailable"@ {
            Some(MemorySubjectResolution::RepositoryStateUnavailable)
        } else {
            None
        }
    }

    /// The value whose canonical name is `text`, if any.
    pub fn from_name(text: &str) -> (found: Option<MemorySubjectResolution>)
        ensures
            found == MemorySubjectResolution::parse_name(text@),
    {
        if str_eq(text, "resolved") {
            return Some(MemorySubjectResolution::Resolved);
        }
        if str_eq(text, "resolved_through_identity_link") {
            return Some(MemorySubjectResolution::ResolvedThroughIdentityLink);
        }
        if str_eq(text, "missing") {
            return Some(MemorySubjectResolution::Missing);
        }
        if str_eq(text, "ambiguous") {
            return Some(MemorySubjectResolution::Ambiguous);
        }
        if str_eq(text, "repository_state_unavailable") {
            return Some(MemorySubjectResolution::RepositoryStateUnavailable);
        }
        None
    }

    /// Two different values never share a canonical name.
    pub proof fn lemma_names_distinct(a: MemorySubjectResolution, b: MemorySubjectResolution)
        ensures
            a.name_of() == b.name_of() ==> a == b,
    {
        reveal_strlit("resolved");
        reveal_strlit("resolved_through_identity_link");
        reveal_strlit("missing");
        reveal_strlit("ambiguous");
        reveal_strlit("repository_state_unavailable");
        if a.name_of() == b.name_of() {
            assert(a.name_of().len() == b.name_of().len());
        }
    }

    /// Reading a canonical name back gives the value it names.
    pub proof fn lemma_name_round_trip(value: MemorySubjectResolution)
        ensures
            MemorySubjectResolution::parse_name(value.name_of()) == Some(value),
    {
        MemorySubjectResolution::lemma_names_distinct(MemorySubjectResolution::Resolved, value);
        MemorySubjectResolution::lemma_names_distinct(MemorySubjectResolution::ResolvedThroughIdentityLink, value);
        MemorySubjectResolution::lemma_names_distinct(MemorySubjectResolution::Missing, value);
        MemorySubjectResolution::lemma_names_distinct(MemorySubjectResolution::Ambiguous, value);
        MemorySubjectResolution::lemma_names_distinct(MemorySubjectResolution::RepositoryStateUnavailable, value);
    }

    /// The sentence that explains a value.
    pub open spec fn note_of(self) -> Seq<char> {
        match self {
            MemorySubjectResolution::Resolved => "the subject this record names is in the current index, so the note attaches to it \
                directly"@,
            MemorySubjectResolution::ResolvedThroughIdentityLink => "the subject moved, and a recorded identity link names exactly one successor — so \
                the note attaches because a link says so, never because two names looked alike"@,
            MemorySubjectResolution::Missing => "the subject is no longer in the index and no link reaches a successor. The record \
                is kept and still readable: it holds a snapshot of what it was written about, \
                which is why a re-index that pruned the subject could not destroy it"@,
            MemorySubjectResolution::Ambiguous => "more than one live successor is linked from the subject, and none is promoted over \
                another — every candidate is reported, because choosing one would be establishing \
                identity Nerve was not given"@,
            MemorySubjectResolution::RepositoryStateUnavailable => "there is no indexed repository state to check the subject against, so whether it \
                is still there is unknown rather than answered. The record is readable; reporting \
                unknown as missing would be claiming a deletion nothing observed"@,
        }
    }

    /// What the value means, in words.
    pub fn note(self) -> (text: &'static str)
        ensures
            text@ == self.note_of(),
    {
        match self {
            MemorySubjectResolution::Resolved => "the subject this record names is in the current index, so the note attaches to it \
                directly",
            MemorySubjectResolution::ResolvedThroughIdentityLink => "the subject moved, and a recorded identity link names exactly one successor — so \
                the note attaches because a link says so, never because two names looked alike",
            MemorySubjectResolution::Missing => "the subject is no longer in the index and no link reaches a successor. The record \
                is kept and still readable: it holds a snapshot of what it was written about, \
                which is why a re-index that pruned the subject could not destroy it",
            MemorySubjectResolution::Ambiguous => "more than one live successor is linked from the subject, and none is promoted over \
                another — every candidate is reported, because choosing one would be establishing \
                identity Nerve was not given",
            MemorySubjectResolution::RepositoryStateUnavailable => "there is no indexed repository state to check the subject against, so whether it \
                is still there is unknown rather than answered. The record is readable; reporting \
                unknown as missing would be claiming a deletion nothing observed",
        }
    }

    /// Two different values never share a sentence.
    pub proof fn lemma_notes_distinct(a: MemorySubjectResolution, b: MemorySubjectResolution)
        ensures
            a.note_of() == b.note_of() ==> a == b,
    {
        reveal_strlit("the subject this record names is in the current index, so the note attaches to it \
            directly");
        reveal_strlit("the subject moved, and a recorded identity link names exactly one successor — so \
            the note attaches because a link says so, never because two names looked alike");
        reveal_strlit("the subject is no longer in the index and no link reaches a successor. The record \
            is kept and still readable: it holds a snapshot of what it was written about, \
            which is why a re-index that pruned the subject could not destroy it");
        reveal_strlit("more than one live successor is linked from the subject, and none is promoted over \
            another — every candidate is reported, because choosing one would be establishing \
            identity Nerve was not given");
        reveal_strlit("there is no indexed repository state to check the subject against, so whether it \
            is still there is unknown rather than answered. The record is readable; reporting \
            unknown as missing would be claiming a deletion nothing observed");
        if a.note_of() == b.note_of() {
            assert(a.note_of().len() == b.note_of().len());
        }
    }

}

impl core::str::FromStr for MemorySubjectResolution {
    type Err = NerveError;

    fn from_str(text: &str) -> (parsed: Result<MemorySubjectResolution, NerveError>)
        ensures
            match parsed {
                Ok(value) => MemorySubjectResolution::parse_name(text@) == Some(value),
                Err(e) => MemorySubjectResolution::parse_name(text@) is None
                    && (e matches NerveError::UnknownVocabularyValue { vocabulary, value }
                    && vocabulary@ == "MemorySubjectResolution"@ && value@ == text@),
            },
    {
        match MemorySubjectResolution::from_name(text) {
            Some(value) => Ok(value),
            None => Err(NerveError::unknown("MemorySubjectResolution", text)),
        }
    }
}

impl EntityKind {
    /// Whether a kind is identified by the symbol tuple
    /// `(kind, project_id, module_rel_path, scope_path, name, disambiguator)`.
    pub open spec fn is_symbol_kind(self) -> bool {
        self is Function || self is Method || self is Class || self is Interface
    }

    /// True for kinds identified by the symbol tuple.
    pub fn is_symbol(self) -> (symbol: bool)
        ensures
            symbol == self.is_symbol_kind(),
    {
        match self {
            EntityKind::Function | EntityKind::Method | EntityKind::Class | EntityKind::Interface => true,
            _ => false,
        }
    }

    /// How a kind is located by a repository-relative path.
    pub open spec fn path_role_of(self) -> PathRole {
        match self {
            EntityKind::Module | EntityKind::Document => PathRole::Content,
            EntityKind::File | EntityKind::Directory => PathRole::Container,
            _ => PathRole::NotAddressable,
        }
    }

    /// How this kind is located by a repository-relative path, if it is at all.
    ///
    /// `Content` kinds hold the path in `scope_path`; `Container` kinds hold it as `scope_path`
    /// joined to `name`; every other kind is not addressed by a path.
    pub fn path_role(self) -> (role: PathRole)
        ensures
            role == self.path_role_of(),
    {
        match self {
            EntityKind::Module | EntityKind::Document => PathRole::Content,
            EntityKind::File | EntityKind::Directory => PathRole::Container,
            EntityKind::Repository
            | EntityKind::Function
            | EntityKind::Method
            | EntityKind::Class
            | EntityKind::Interface
            | EntityKind::Section
            | EntityKind::Unresolved
            | EntityKind::CoverageRun
            | EntityKind::Endpoint => PathRole::NotAddressable,
        }
    }
}

impl Relation {
    /// The relations the first structural extractor is permitted to emit.
    pub const SLICE1_EMITTED: [Relation; 4] = [
        Relation::Contains,
        Relation::Defines,
        Relation::Imports,
        Relation::Exports,
    ];
}

impl EvidenceSourceType {
    /// The position of a source type in [`EvidenceSourceType::ALL`].
    pub open spec fn ordinal_of(self) -> u32 {
        match self {
            EvidenceSourceType::AstDirect => 0,
            EvidenceSourceType::AstResolved => 1,
            EvidenceSourceType::AstHeuristic => 2,
            EvidenceSourceType::TypeResolved => 3,
            EvidenceSourceType::FrameworkRule => 4,
            EvidenceSourceType::TestCoverage => 5,
            EvidenceSourceType::TestCallTrace => 6,
            EvidenceSourceType::RuntimeCallTrace => 7,
            EvidenceSourceType::DocumentStated => 8,
            EvidenceSourceType::HumanConfirmed => 9,
            EvidenceSourceType::LlmDerived => 10,
            EvidenceSourceType::FilesystemObserved => 11,
        }
    }

    /// Stable ordinal: the index of this value in [`EvidenceSourceType::ALL`].
    pub fn ordinal(self) -> (position: u32)
        ensures
            position == self.ordinal_of(),
            position < 12,
            EvidenceSourceType::ALL@[position as int] == self,
    {
        let all = EvidenceSourceType::ALL;
        let mut i: usize = 0;
        while i < 12
            invariant
                i <= 12,
                all == EvidenceSourceType::ALL,
                forall|j: int| 0 <= j < i ==> all@[j] != self,
            decreases 12 - i,
        {
            if all[i] == self {
                assert(all@[i as int].ordinal_of() == i);
                return i as u32;
            }
            i = i + 1;
        }
        assert(all@[self.ordinal_of() as int] == self);
        0
    }

    /// The `source_type_mask` bit for this source type: one shifted left by its ordinal.
    pub fn mask_bit(self) -> (bit: i64)
        ensures
            bit as int == vstd::arithmetic::power2::pow2(self.ordinal_of() as nat),
    {
        proof {
            vstd::arithmetic::power2::lemma2_to64();
        }
        let position = self.ordinal();
        match position {
            0 => 1,
            1 => 2,
            2 => 4,
            3 => 8,
            4 => 16,
            5 => 32,
            6 => 64,
            7 => 128,
            8 => 256,
            9 => 512,
            10 => 1024,
            _ => 2048,
        }
    }

    /// Two source types never share an ordinal, so never share a mask bit.
    pub proof fn lemma_ordinals_distinct(a: EvidenceSourceType, b: EvidenceSourceType)
        ensures
            a.ordinal_of() == b.ordinal_of() ==> a == b,
    {
    }
}

impl ParentCompleteness {
    /// Whether "the project's history begins here" may be said of a commit.
    pub open spec fn history_may_begin(self) -> bool {
        self is Root
    }

    /// May a consumer state that the project's history begins at this commit?
    ///
    /// True for [`ParentCompleteness::Root`] and nothing else: the boundary values and the
    /// undecidable one stand in front of an absence of visibility, not of history.
    pub fn may_claim_history_begins_here(self) -> (permitted: bool)
        ensures
            permitted == self.history_may_begin(),
            permitted <==> self == ParentCompleteness::Root,
    {
        match self {
            ParentCompleteness::Root => true,
            _ => false,
        }
    }
}

impl FirstObservedKind {
    /// Whether an answer may be rendered as "the path was created then".
    pub open spec fn creation_may_be_claimed(self) -> bool {
        self is CreatedInVisibleHistory
    }

    /// May a consumer render this answer as *"the path was created then"*?
    ///
    /// True for [`FirstObservedKind::CreatedInVisibleHistory`] and nothing else.
    pub fn may_claim_created(self) -> (permitted: bool)
        ensures
            permitted == self.creation_may_be_claimed(),
            permitted <==> self == FirstObservedKind::CreatedInVisibleHistory,
    {
        match self {
            FirstObservedKind::CreatedInVisibleHistory => true,
            _ => false,
        }
    }
}

} // verus!
