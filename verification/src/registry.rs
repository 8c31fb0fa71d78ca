//! Namespacing and validation of library-owned NLP package surfaces.
//!
//! Focused libraries own their operations; the registry only namespaces
//! discovery as `library/operation` and refuses ambiguous registrations.

use vstd::prelude::*;
use vstd::string::StringExecFns;

use crate::chars::{collect_chars, contains_char, same_text};
use crate::laws::registry::{law_validation_accepts_exactly_well_formed_surfaces, well_formed_surfaces};

verus! {

/// One operation offered by a package surface.
#[derive(Debug, Clone, PartialEq, Eq)]
pub struct SurfaceOperation {
    pub id: String,
    pub name: String,
    pub description: String,
}

/// The operations one library exposes through the registry.
#[derive(Debug, Clone, PartialEq, Eq)]
pub struct PackageSurface {
    pub library: String,
    pub version: String,
    pub operations: Vec<SurfaceOperation>,
}

/// Reports an invalid package-surface registry before dispatch can occur.
#[derive(Debug, Clone, PartialEq, Eq)]
pub enum RegistryError {
    DuplicateLibrary(String),
    DuplicateOperation(String),
    EmptyLibrary,
    EmptyOperation { library: String },
    ReservedNamespaceDelimiter { field: &'static str, value: String },
}

/// The content of a [`RegistryError`], as characters.
pub ghost enum RegistryProblem {
    DuplicateLibrary(Seq<char>),
    DuplicateOperation(Seq<char>),
    EmptyLibrary,
    EmptyOperation(Seq<char>),
    /// A library name holds the `/` delimiter.
    LibraryDelimiter(Seq<char>),
    /// An operation id holds the `/` delimiter.
    OperationDelimiter(Seq<char>),
}

impl View for RegistryError {
    type V = RegistryProblem;

    open spec fn view(&self) -> RegistryProblem {
        match self {
            RegistryError::DuplicateLibrary(library) => RegistryProblem::DuplicateLibrary(library@),
            RegistryError::DuplicateOperation(operation) => RegistryProblem::DuplicateOperation(
                operation@,
            ),
            RegistryError::EmptyLibrary => RegistryProblem::EmptyLibrary,
            RegistryError::EmptyOperation { library } => RegistryProblem::EmptyOperation(library@),
            RegistryError::ReservedNamespaceDelimiter { field, value } => if field@ == "library"@ {
                RegistryProblem::LibraryDelimiter(value@)
            } else {
                RegistryProblem::OperationDelimiter(value@)
            },
        }
    }
}

/// The registry id of `operation` owned by `library`.
pub open spec fn namespaced(library: Seq<char>, operation: Seq<char>) -> Seq<char> {
    library + seq!['/'] + operation
}

/// The operation ids of a surface, as characters.
pub open spec fn operation_ids(operations: Seq<SurfaceOperation>) -> Seq<Seq<char>> {
    operations.map_values(|operation: SurfaceOperation| operation.id@)
}

/// Checks the operations of `library` from position `index` on, given the
/// namespaced ids already registered; yields the ids registered afterwards.
pub open spec fn check_operations(
    library: Seq<char>,
    ids: Seq<Seq<char>>,
    index: int,
    registered: Seq<Seq<char>>,
) -> Result<Seq<Seq<char>>, RegistryProblem>
    decreases ids.len() - index,
{
    if index < 0 || index >= ids.len() {
        Ok(registered)
    } else {
        let id = ids[index];
        if id.len() == 0 {
            Err(RegistryProblem::EmptyOperation(library))
        } else if id.contains('/') {
            Err(RegistryProblem::OperationDelimiter(id))
        } else if registered.contains(namespaced(library, id)) {
            Err(RegistryProblem::DuplicateOperation(namespaced(library, id)))
        } else {
            check_operations(library, ids, index + 1, registered.push(namespaced(library, id)))
        }
    }
}

/// Checks the surfaces from position `index` on, given the libraries and
/// namespaced operation ids already registered.
pub open spec fn check_surfaces(
    surfaces: Seq<PackageSurface>,
    index: int,
    libraries: Seq<Seq<char>>,
    registered: Seq<Seq<char>>,
) -> Result<(), RegistryProblem>
    decreases surfaces.len() - index,
{
    if index < 0 || index >= surfaces.len() {
        Ok(())
    } else {
        let library = surfaces[index].library@;
        if library.len() == 0 {
            Err(RegistryProblem::EmptyLibrary)
        } else if library.contains('/') {
            Err(RegistryProblem::LibraryDelimiter(library))
        } else if libraries.contains(library) {
            Err(RegistryProblem::DuplicateLibrary(library))
        } else {
            match check_operations(
                library,
                operation_ids(surfaces[index].operations@),
                0,
                registered,
            ) {
                Err(problem) => Err(problem),
                Ok(after) => check_surfaces(surfaces, index + 1, libraries.push(library), after),
            }
        }
    }
}

/// The outcome of validating `surfaces` in order.
pub open spec fn surfaces_check(surfaces: Seq<PackageSurface>) -> Result<(), RegistryProblem> {
    check_surfaces(surfaces, 0, Seq::empty(), Seq::empty())
}

/// The character views of a list of strings.
pub open spec fn string_views(strings: Seq<String>) -> Seq<Seq<char>> {
    strings.map_values(|s: String| s@)
}

/// Returns the namespace used by registry operation IDs.
pub fn namespace_operation(library: &str, operation: &str) -> (id: String)
    ensures
        id@ == namespaced(library@, operation@),
{
    let mut id = String::from_str(library);
    id.append("/");
    id.append(operation);
    proof {
        reveal_strlit("/");
        assert(id@ =~= namespaced(library@, operation@));
    }
    id
}

fn holds_string(strings: &Vec<String>, candidate: &String) -> (found: bool)
    ensures
        found == string_views(strings@).contains(candidate@),
{
    let mut index: usize = 0;
    while index < strings.len()
        invariant
            index <= strings@.len(),
            forall|i: int| 0 <= i < index ==> strings@[i]@ != candidate@,
        decreases strings@.len() - index,
    {
        if strings[index] == *candidate {
            proof {
                assert(string_views(strings@)[index as int] == candidate@);
            }
            return true;
        }
        index = index + 1;
    }
    proof {
        if string_views(strings@).contains(candidate@) {
            let i = choose|i: int|
                0 <= i < string_views(strings@).len() && string_views(strings@)[i] == candidate@;
            assert(strings@[i]@ == candidate@);
        }
    }
    false
}

/// Validates that package names and namespaced operation IDs are unique:
/// succeeds exactly when every library is non-empty, free of `/` and unique,
/// every operation id is non-empty and free of `/`, and every namespaced id
/// is unique overall; otherwise reports the first problem in surface order,
/// a `/` in a name under the field `library` or `operation` that holds it.
pub fn validate_package_surfaces(surfaces: &[PackageSurface]) -> (result: Result<(), RegistryError>)
    ensures
        match result {
            Ok(()) => surfaces_check(surfaces@) is Ok,
            Err(error) => surfaces_check(surfaces@) == Err::<(), RegistryProblem>(error@),
        },
        result matches Err(RegistryError::ReservedNamespaceDelimiter { field, .. }) ==> (field@
            == "library"@ || field@ == "operation"@),
        result is Ok <==> well_formed_surfaces(surfaces@),
{
    let result = check_package_surfaces(surfaces);
    proof {
        law_validation_accepts_exactly_well_formed_surfaces(surfaces@);
    }
    result
}

/// The ordered check of `validate_package_surfaces`.
fn check_package_surfaces(surfaces: &[PackageSurface]) -> (result: Result<(), RegistryError>)
    ensures
        match result {
            Ok(()) => surfaces_check(surfaces@) is Ok,
            Err(error) => surfaces_check(surfaces@) == Err::<(), RegistryProblem>(error@),
        },
        result matches Err(RegistryError::ReservedNamespaceDelimiter { field, .. }) ==> (field@
            == "library"@ || field@ == "operation"@),
{
    let mut libraries: Vec<String> = Vec::new();
    let mut operations: Vec<String> = Vec::new();
    let mut index: usize = 0;
    proof {
        assert(string_views(libraries@) =~= Seq::<Seq<char>>::empty());
        assert(string_views(operations@) =~= Seq::<Seq<char>>::empty());
        reveal_strlit("library");
        reveal_strlit("operation");
        assert("library"@.len() == 7);
        assert("operation"@.len() == 9);
    }
    while index < surfaces.len()
        invariant
            index <= surfaces@.len(),
            surfaces_check(surfaces@) == check_surfaces(
                surfaces@,
                index as int,
                string_views(libraries@),
                string_views(operations@),
            ),
            "library"@ != "operation"@,
        decreases surfaces@.len() - index,
    {
        let surface = &surfaces[index];
        if surface.library.as_str().is_empty() {
            return Err(RegistryError::EmptyLibrary);
        }
        if contains_char(surface.library.as_str(), '/') {
            return Err(
                RegistryError::ReservedNamespaceDelimiter {
                    field: "library",
                    value: surface.library.clone(),
                },
            );
        }
        if holds_string(&libraries, &surface.library) {
            return Err(RegistryError::DuplicateLibrary(surface.library.clone()));
        }
        let ghost ids = operation_ids(surface.operations@);
        let ghost library_view = surface.library@;
        let mut position: usize = 0;
        while position < surface.operations.len()
            invariant
                index < surfaces@.len(),
                surface == surfaces@[index as int],
                ids == operation_ids(surface.operations@),
                library_view == surface.library@,
                position <= surface.operations@.len(),
                surfaces_check(surfaces@) == match check_operations(
                    library_view,
                    ids,
                    position as int,
                    string_views(operations@),
                ) {
                    Err(problem) => Err(problem),
                    Ok(after) => check_surfaces(
                        surfaces@,
                        index + 1,
                        string_views(libraries@).push(library_view),
                        after,
                    ),
                },
                "library"@ != "operation"@,
            decreases surface.operations@.len() - position,
        {
            let id = &surface.operations[position].id;
            assert(ids[position as int] == id@);
            if id.as_str().is_empty() {
                return Err(RegistryError::EmptyOperation { library: surface.library.clone() });
            }
            if contains_char(id.as_str(), '/') {
                return Err(
                    RegistryError::ReservedNamespaceDelimiter { field: "operation", value: id.clone() },
                );
            }
            let namespaced_id = namespace_operation(surface.library.as_str(), id.as_str());
            if holds_string(&operations, &namespaced_id) {
                return Err(RegistryError::DuplicateOperation(namespaced_id));
            }
            let ghost before = operations@;
            operations.push(namespaced_id);
            proof {
                assert(string_views(operations@) =~= string_views(before).push(
                    namespaced(library_view, ids[position as int]),
                ));
            }
            position = position + 1;
        }
        let ghost before = libraries@;
        libraries.push(surface.library.clone());
        proof {
            assert(string_views(libraries@) =~= string_views(before).push(library_view));
        }
        index = index + 1;
    }
    Ok(())
}

/// Position of the first `c` in `text`, if any.
pub open spec fn first_position(text: Seq<char>, c: char) -> Option<int>
    decreases text.len(),
{
    if text.len() == 0 {
        None
    } else if text[0] == c {
        Some(0)
    } else {
        match first_position(text.drop_first(), c) {
            Some(k) => Some(k + 1),
            None => None,
        }
    }
}

/// Position of the first surface that belongs to `library`, if any.
pub open spec fn library_position(surfaces: Seq<PackageSurface>, library: Seq<char>) -> Option<int>
    decreases surfaces.len(),
{
    if surfaces.len() == 0 {
        None
    } else {
        match library_position(surfaces.drop_last(), library) {
            Some(k) => Some(k),
            None => if surfaces.last().library@ == library {
                Some(surfaces.len() - 1)
            } else {
                None
            },
        }
    }
}

/// Where a namespaced request goes: the surface that owns the library named
/// before the first `/`, and the operation named after it, when that surface
/// offers such an operation.
pub open spec fn resolved(surfaces: Seq<PackageSurface>, requested: Seq<char>) -> Option<(int, Seq<char>)> {
    match first_position(requested, '/') {
        None => None,
        Some(k) => {
            let library = requested.take(k);
            let operation = requested.skip(k + 1);
            match library_position(surfaces, library) {
                None => None,
                Some(s) => if operation_ids(surfaces[s].operations@).contains(operation) {
                    Some((s, operation))
                } else {
                    None
                },
            }
        },
    }
}

fn find_slash(text: &str) -> (position: Option<usize>)
    ensures
        match position {
            Some(k) => first_position(text@, '/') == Some(k as int) && k < text@.len(),
            None => first_position(text@, '/') is None,
        },
{
    let chars = collect_chars(text);
    let mut index: usize = 0;
    proof {
        assert(chars@.skip(0) =~= chars@);
    }
    while index < chars.len()
        invariant
            chars@ == text@,
            index <= chars@.len(),
            first_position(text@, '/') == match first_position(chars@.skip(index as int), '/') {
                Some(k) => Some(k + index),
                None => None,
            },
        decreases chars@.len() - index,
    {
        proof {
            assert(chars@.skip(index as int).drop_first() =~= chars@.skip(index + 1));
        }
        if chars[index] == '/' {
            return Some(index);
        }
        index = index + 1;
    }
    None
}

fn find_library(surfaces: &[PackageSurface], library: &str) -> (position: Option<usize>)
    ensures
        match position {
            Some(k) => k < surfaces@.len() && library_position(surfaces@, library@) == Some(k as int),
            None => library_position(surfaces@, library@) is None,
        },
{
    let mut index: usize = 0;
    while index < surfaces.len()
        invariant
            index <= surfaces@.len(),
            library_position(surfaces@.take(index as int), library@) is None,
        decreases surfaces@.len() - index,
    {
        proof {
            assert(surfaces@.take(index + 1).drop_last() =~= surfaces@.take(index as int));
        }
        if same_text(surfaces[index].library.as_str(), library) {
            proof {
                lemma_library_position_prefix(surfaces@, index + 1, library@);
            }
            return Some(index);
        }
        index = index + 1;
    }
    proof {
        assert(surfaces@.take(index as int) =~= surfaces@);
    }
    None
}

proof fn lemma_library_position_prefix(surfaces: Seq<PackageSurface>, count: int, library: Seq<char>)
    requires
        0 <= count <= surfaces.len(),
        library_position(surfaces.take(count), library) is Some,
    ensures
        library_position(surfaces, library) == library_position(surfaces.take(count), library),
    decreases surfaces.len(),
{
    if count < surfaces.len() {
        assert(surfaces.drop_last().take(count) =~= surfaces.take(count));
        lemma_library_position_prefix(surfaces.drop_last(), count, library);
    } else {
        assert(surfaces.take(count) =~= surfaces);
    }
}

/// The surface and local operation that a namespaced request names, or `None`
/// when the request has no `/`, names no registered library, or names an
/// operation its library does not offer.
pub fn resolve_operation(surfaces: &[PackageSurface], requested: &str) -> (route: Option<(usize, String)>)
    ensures
        match route {
            Some((surface, operation)) => resolved(surfaces@, requested@) == Some(
                (surface as int, operation@),
            ),
            None => resolved(surfaces@, requested@) is None,
        },
{
    let length = requested.unicode_len();
    let slash = match find_slash(requested) {
        Some(k) => k,
        None => return None,
    };
    let library = requested.substring_char(0, slash);
    let operation = requested.substring_char(slash + 1, length);
    proof {
        assert(library@ =~= requested@.take(slash as int));
        assert(operation@ =~= requested@.skip(slash + 1));
    }
    let surface = match find_library(surfaces, library) {
        Some(k) => k,
        None => return None,
    };
    let operations = &surfaces[surface].operations;
    let mut index: usize = 0;
    while index < operations.len()
        invariant
            index <= operations@.len(),
            surface < surfaces@.len(),
            operations == surfaces@[surface as int].operations,
            forall|i: int| 0 <= i < index ==> operations@[i].id@ != operation@,
            first_position(requested@, '/') == Some(slash as int),
            library_position(surfaces@, library@) == Some(surface as int),
            library@ == requested@.take(slash as int),
            operation@ == requested@.skip(slash + 1),
        decreases operations@.len() - index,
    {
        if same_text(operations[index].id.as_str(), operation) {
            proof {
                assert(operation_ids(operations@)[index as int] == operation@);
                assert(first_position(requested@, '/') == Some(slash as int));
                assert(library_position(surfaces@, requested@.take(slash as int)) == Some(
                    surface as int,
                ));
                assert(operation_ids(surfaces@[surface as int].operations@).contains(
                    requested@.skip(slash + 1),
                ));
            }
            let local = String::from_str(operation);
            assert(local@ == requested@.skip(slash + 1));
            return Some((surface, local));
        }
        index = index + 1;
    }
    proof {
        if operation_ids(operations@).contains(operation@) {
            let i = choose|i: int|
                0 <= i < operation_ids(operations@).len() && operation_ids(operations@)[i]
                    == operation@;
            assert(operations@[i].id@ == operation@);
        }
    }
    None
}

/// The sentence that describes a registry error, as characters.
pub open spec fn registry_error_text(error: RegistryError) -> Seq<char> {
    match error {
        RegistryError::DuplicateLibrary(library) => "duplicate library `"@ + library@ + "`"@,
        RegistryError::DuplicateOperation(operation) => "duplicate namespaced operation `"@
            + operation@ + "`"@,
        RegistryError::EmptyLibrary => "package surface has an empty library name"@,
        RegistryError::EmptyOperation { library } => "package surface `"@ + library@
            + "` has an empty operation id"@,
        RegistryError::ReservedNamespaceDelimiter { field, value } => field@ + " `"@ + value@
            + "` contains the reserved `/` delimiter"@,
    }
}

impl RegistryError {
    /// A sentence that describes the error.
    pub fn message(&self) -> (text: String)
        ensures
            text@ == registry_error_text(*self),
    {
        match self {
            RegistryError::DuplicateLibrary(library) => {
                let mut text = String::from_str("duplicate library `");
                text.append(library.as_str());
                text.append("`");
                text
            },
            RegistryError::DuplicateOperation(operation) => {
                let mut text = String::from_str("duplicate namespaced operation `");
                text.append(operation.as_str());
                text.append("`");
                text
            },
            RegistryError::EmptyLibrary => String::from_str(
                "package surface has an empty library name",
            ),
            RegistryError::EmptyOperation { library } => {
                let mut text = String::from_str("package surface `");
                text.append(library.as_str());
                text.append("` has an empty operation id");
                text
            },
            RegistryError::ReservedNamespaceDelimiter { field, value } => {
                let mut text = String::from_str(field);
                text.append(" `");
                text.append(value.as_str());
                text.append("` contains the reserved `/` delimiter");
                text
            },
        }
    }
}

/// The id, name and description of an operation, as characters.
pub open spec fn operation_view(operation: SurfaceOperation) -> (Seq<char>, Seq<char>, Seq<char>) {
    (operation.id@, operation.name@, operation.description@)
}

/// The operations of `surfaces`, surface by surface, with ids namespaced by
/// their library.
pub open spec fn namespaced_views(surfaces: Seq<PackageSurface>) -> Seq<(Seq<char>, Seq<char>, Seq<char>)>
    decreases surfaces.len(),
{
    if surfaces.len() == 0 {
        Seq::empty()
    } else {
        let last = surfaces.last();
        namespaced_views(surfaces.drop_last()) + last.operations@.map_values(
            |operation: SurfaceOperation|
                (namespaced(last.library@, operation.id@), operation.name@, operation.description@),
        )
    }
}

/// The operations the registry lists: its own `describe` operation, then
/// every operation of every validated surface under its namespaced id.
pub fn registry_operations(surfaces: &[PackageSurface], describe: SurfaceOperation) -> (operations:
    Vec<SurfaceOperation>)
    requires
        surfaces_check(surfaces@) is Ok,
    ensures
        operations@.map_values(|operation: SurfaceOperation| operation_view(operation)) == seq![
            operation_view(describe),
        ] + namespaced_views(surfaces@),
{
    let ghost described = operation_view(describe);
    let mut operations: Vec<SurfaceOperation> = Vec::new();
    operations.push(describe);
    let mut index: usize = 0;
    proof {
        assert(namespaced_views(surfaces@.take(0)) =~= Seq::empty());
        assert(operations@.map_values(|operation: SurfaceOperation| operation_view(operation))
            =~= seq![described] + namespaced_views(surfaces@.take(0)));
    }
    while index < surfaces.len()
        invariant
            index <= surfaces@.len(),
            operations@.map_values(|operation: SurfaceOperation| operation_view(operation)) == seq![
                described,
            ] + namespaced_views(surfaces@.take(index as int)),
        decreases surfaces@.len() - index,
    {
        let surface = &surfaces[index];
        let ghost before = operations@.map_values(
            |operation: SurfaceOperation| operation_view(operation),
        );
        let ghost added = surface.operations@.map_values(
            |operation: SurfaceOperation|
                (namespaced(surface.library@, operation.id@), operation.name@, operation.description@),
        );
        proof {
            assert(surfaces@.take(index + 1).drop_last() =~= surfaces@.take(index as int));
            assert(surfaces@.take(index + 1).last() == *surface);
        }
        let mut position: usize = 0;
        while position < surface.operations.len()
            invariant
                position <= surface.operations@.len(),
                surface == surfaces@[index as int],
                added == surface.operations@.map_values(
                    |operation: SurfaceOperation|
                        (namespaced(surface.library@, operation.id@), operation.name@, operation.description@),
                ),
                operations@.map_values(|operation: SurfaceOperation| operation_view(operation))
                    == before + added.take(position as int),
            decreases surface.operations@.len() - position,
        {
            let source = &surface.operations[position];
            let ghost previous = operations@;
            operations.push(
                SurfaceOperation {
                    id: namespace_operation(surface.library.as_str(), source.id.as_str()),
                    name: source.name.clone(),
                    description: source.description.clone(),
                },
            );
            proof {
                assert(operations@.map_values(
                    |operation: SurfaceOperation| operation_view(operation),
                ) =~= previous.map_values(|operation: SurfaceOperation| operation_view(operation)).push(
                    added[position as int],
                ));
                assert(added.take(position + 1) =~= added.take(position as int).push(
                    added[position as int],
                ));
            }
            position = position + 1;
        }
        proof {
            assert(added.take(position as int) =~= added);
        }
        index = index + 1;
    }
    proof {
        assert(surfaces@.take(index as int) =~= surfaces@);
    }
    operations
}

/// The id of the registry's own operation.
pub open spec fn registry_operation_id() -> Seq<char> {
    "registry.describe"@
}

/// Where a registry request goes.
#[derive(Debug, Clone, PartialEq, Eq)]
pub enum RegistryRoute {
    /// The registry describes itself.
    Describe,
    /// Surface `surface` runs its operation `operation`.
    Forward { surface: usize, operation: String },
    /// No registered surface offers the requested operation.
    Unsupported,
}

/// Routes a registry request: a registry that fails validation is refused
/// with its first problem; `registry.describe` is the registry's own; any
/// other request goes to the surface its namespace names, when that surface
/// offers the operation, and is unsupported otherwise.
pub fn route_request(surfaces: &[PackageSurface], requested: &str) -> (route: Result<RegistryRoute, RegistryError>)
    ensures
        match surfaces_check(surfaces@) {
            Err(problem) => route matches Err(error) && error@ == problem,
            Ok(()) => if requested@ == registry_operation_id() {
                route == Ok::<RegistryRoute, RegistryError>(RegistryRoute::Describe)
            } else {
                match resolved(surfaces@, requested@) {
                    Some((surface, operation)) => route matches Ok(RegistryRoute::Forward { surface: s, operation: o })
                        && s == surface && o@ == operation,
                    None => route == Ok::<RegistryRoute, RegistryError>(RegistryRoute::Unsupported),
                }
            },
        },
{
    match validate_package_surfaces(surfaces) {
        Err(error) => {
            return Err(error);
        },
        Ok(()) => {},
    }
    if same_text(requested, "registry.describe") {
        return Ok(RegistryRoute::Describe);
    }
    match resolve_operation(surfaces, requested) {
        Some((surface, operation)) => Ok(RegistryRoute::Forward { surface, operation }),
        None => Ok(RegistryRoute::Unsupported),
    }
}

/// The registry's own operation, as it lists it.
pub open spec fn registry_describe_view() -> (Seq<char>, Seq<char>, Seq<char>) {
    (
        registry_operation_id(),
        "Inspect registered NLP package surfaces"@,
        "Lists library-owned NLP operations exposed through this additive registry."@,
    )
}

/// The registry's own package surface, named `library` at `version`: its
/// `registry.describe` operation, then every operation of every registered
/// surface under its namespaced id.
pub fn registry_package_surface(surfaces: &[PackageSurface], library: &str, version: &str) -> (surface:
    PackageSurface)
    requires
        surfaces_check(surfaces@) is Ok,
    ensures
        surface.library@ == library@,
        surface.version@ == version@,
        surface.operations@.map_values(|operation: SurfaceOperation| operation_view(operation)) == seq![
            registry_describe_view(),
        ] + namespaced_views(surfaces@),
{
    let describe = SurfaceOperation {
        id: String::from_str("registry.describe"),
        name: String::from_str("Inspect registered NLP package surfaces"),
        description: String::from_str(
            "Lists library-owned NLP operations exposed through this additive registry.",
        ),
    };
    let operations = registry_operations(surfaces, describe);
    PackageSurface { library: String::from_str(library), version: String::from_str(version), operations }
}

} // verus!
