//! Properties of validated package surfaces and of request routing.

use vstd::prelude::*;

use crate::registry::{
    check_operations, check_surfaces, first_position, library_position, namespaced, operation_ids,
    resolved, surfaces_check, PackageSurface,
};

verus! {

proof fn lemma_accepted_operations(
    library: Seq<char>,
    ids: Seq<Seq<char>>,
    index: int,
    registered: Seq<Seq<char>>,
)
    requires
        0 <= index,
        check_operations(library, ids, index, registered) is Ok,
    ensures
        forall|k: int|
            #![trigger ids[k]]
            index <= k < ids.len() ==> ids[k].len() > 0 && !ids[k].contains('/')
                && !registered.contains(namespaced(library, ids[k])),
        forall|k: int, m: int|
            #![trigger ids[k], ids[m]]
            index <= k < m < ids.len() ==> ids[k] != ids[m],
        check_operations(library, ids, index, registered) matches Ok(after) ==> forall|x: Seq<char>|
            registered.contains(x) ==> #[trigger] after.contains(x),
    decreases ids.len() - index,
{
    if index < ids.len() {
        let next = registered.push(namespaced(library, ids[index]));
        lemma_accepted_operations(library, ids, index + 1, next);
        assert(next[registered.len() as int] == namespaced(library, ids[index]));
        assert forall|x: Seq<char>| registered.contains(x) implies next.contains(x) by {
            let t = choose|t: int| 0 <= t < registered.len() && registered[t] == x;
            assert(next[t] == x);
        }
    }
}

proof fn lemma_accepted_surfaces(
    surfaces: Seq<PackageSurface>,
    index: int,
    libraries: Seq<Seq<char>>,
    registered: Seq<Seq<char>>,
)
    requires
        0 <= index,
        check_surfaces(surfaces, index, libraries, registered) is Ok,
    ensures
        forall|s: int|
            #![trigger surfaces[s]]
            index <= s < surfaces.len() ==> {
                &&& surfaces[s].library@.len() > 0
                &&& !surfaces[s].library@.contains('/')
                &&& !libraries.contains(surfaces[s].library@)
                &&& forall|k: int|
                    #![trigger operation_ids(surfaces[s].operations@)[k]]
                    0 <= k < operation_ids(surfaces[s].operations@).len() ==> operation_ids(
                        surfaces[s].operations@,
                    )[k].len() > 0 && !operation_ids(surfaces[s].operations@)[k].contains('/')
                &&& forall|k: int, m: int|
                    #![trigger operation_ids(surfaces[s].operations@)[k], operation_ids(surfaces[s].operations@)[m]]
                    0 <= k < m < operation_ids(surfaces[s].operations@).len() ==> operation_ids(
                        surfaces[s].operations@,
                    )[k] != operation_ids(surfaces[s].operations@)[m]
            },
        forall|s: int, t: int|
            #![trigger surfaces[s], surfaces[t]]
            index <= s < t < surfaces.len() ==> surfaces[s].library@ != surfaces[t].library@,
    decreases surfaces.len() - index,
{
    if index < surfaces.len() {
        let library = surfaces[index].library@;
        let ids = operation_ids(surfaces[index].operations@);
        lemma_accepted_operations(library, ids, 0, registered);
        let after = check_operations(library, ids, 0, registered)->Ok_0;
        let next = libraries.push(library);
        lemma_accepted_surfaces(surfaces, index + 1, next, after);
        assert(next[libraries.len() as int] == library);
        assert forall|s: int|
            #![trigger surfaces[s]]
            index < s < surfaces.len() implies !libraries.contains(surfaces[s].library@) by {
            if libraries.contains(surfaces[s].library@) {
                let t = choose|t: int|
                    0 <= t < libraries.len() && libraries[t] == surfaces[s].library@;
                assert(next[t] == surfaces[s].library@);
            }
        }
    }
}

proof fn lemma_namespaced_split(library: Seq<char>, id: Seq<char>, other_library: Seq<char>, other_id: Seq<char>)
    requires
        !library.contains('/'),
        !other_library.contains('/'),
        namespaced(library, id) == namespaced(other_library, other_id),
    ensures
        library == other_library,
        id == other_id,
{
    let joined = namespaced(library, id);
    if library.len() < other_library.len() {
        assert(joined[library.len() as int] == '/');
        assert(other_library[library.len() as int] == '/');
    } else if library.len() > other_library.len() {
        assert(joined[other_library.len() as int] == '/');
        assert(library[other_library.len() as int] == '/');
    } else {
        assert(library =~= joined.take(library.len() as int));
        assert(other_library =~= joined.take(library.len() as int));
        assert(id =~= joined.skip(library.len() as int + 1));
        assert(other_id =~= joined.skip(library.len() as int + 1));
    }
}

/// Once a set of package surfaces validates, every namespaced operation id
/// names exactly one operation of one library, so dispatch is unambiguous.
pub proof fn law_validated_ids_are_unambiguous(
    surfaces: Seq<PackageSurface>,
    surface: int,
    operation: int,
    other_surface: int,
    other_operation: int,
)
    requires
        surfaces_check(surfaces) is Ok,
        0 <= surface < surfaces.len(),
        0 <= other_surface < surfaces.len(),
        0 <= operation < surfaces[surface].operations@.len(),
        0 <= other_operation < surfaces[other_surface].operations@.len(),
        surface != other_surface || operation != other_operation,
    ensures
        namespaced(
            surfaces[surface].library@,
            surfaces[surface].operations@[operation].id@,
        ) != namespaced(
            surfaces[other_surface].library@,
            surfaces[other_surface].operations@[other_operation].id@,
        ),
{
    lemma_accepted_surfaces(surfaces, 0, Seq::empty(), Seq::empty());
    let ids = operation_ids(surfaces[surface].operations@);
    let other_ids = operation_ids(surfaces[other_surface].operations@);
    assert(ids[operation] == surfaces[surface].operations@[operation].id@);
    assert(other_ids[other_operation] == surfaces[other_surface].operations@[other_operation].id@);
    assert(surfaces[surface] == surfaces[surface]);
    assert(surfaces[other_surface] == surfaces[other_surface]);
    if namespaced(surfaces[surface].library@, ids[operation]) == namespaced(
        surfaces[other_surface].library@,
        other_ids[other_operation],
    ) {
        lemma_namespaced_split(
            surfaces[surface].library@,
            ids[operation],
            surfaces[other_surface].library@,
            other_ids[other_operation],
        );
        if surface < other_surface {
            assert(surfaces[surface].library@ != surfaces[other_surface].library@);
        } else if surface > other_surface {
            assert(surfaces[other_surface].library@ != surfaces[surface].library@);
        } else if operation < other_operation {
            assert(ids[operation] != ids[other_operation]);
        } else {
            assert(ids[other_operation] != ids[operation]);
        }
    }
}

proof fn lemma_first_slash_after_library(library: Seq<char>, rest: Seq<char>)
    requires
        !library.contains('/'),
        rest.len() > 0,
        rest[0] == '/',
    ensures
        first_position(library + rest, '/') == Some(library.len() as int),
    decreases library.len(),
{
    if library.len() > 0 {
        assert((library + rest).drop_first() =~= library.drop_first() + rest);
        assert(library[0] != '/') by {
            if library[0] == '/' {
                assert(library.contains('/'));
            }
        }
        assert forall|i: int| 0 <= i < library.drop_first().len() implies library.drop_first()[i]
            != '/' by {
            assert(library.drop_first()[i] == library[i + 1]);
        }
        lemma_first_slash_after_library(library.drop_first(), rest);
    } else {
        assert(library + rest =~= rest);
    }
}

proof fn lemma_library_absent(surfaces: Seq<PackageSurface>, library: Seq<char>)
    requires
        forall|t: int| 0 <= t < surfaces.len() ==> (#[trigger] surfaces[t]).library@ != library,
    ensures
        library_position(surfaces, library) is None,
    decreases surfaces.len(),
{
    if surfaces.len() > 0 {
        assert forall|t: int| 0 <= t < surfaces.drop_last().len() implies (
        #[trigger] surfaces.drop_last()[t]).library@ != library by {
            assert(surfaces.drop_last()[t] == surfaces[t]);
        }
        lemma_library_absent(surfaces.drop_last(), library);
    }
}

proof fn lemma_library_first(surfaces: Seq<PackageSurface>, library: Seq<char>, position: int)
    requires
        0 <= position < surfaces.len(),
        surfaces[position].library@ == library,
        forall|t: int| 0 <= t < position ==> (#[trigger] surfaces[t]).library@ != library,
    ensures
        library_position(surfaces, library) == Some(position),
    decreases surfaces.len(),
{
    let shorter = surfaces.drop_last();
    if position < surfaces.len() - 1 {
        assert(shorter[position] == surfaces[position]);
        assert forall|t: int| 0 <= t < position implies (#[trigger] shorter[t]).library@ != library by {
            assert(shorter[t] == surfaces[t]);
        }
        lemma_library_first(shorter, library, position);
    } else {
        assert forall|t: int| 0 <= t < shorter.len() implies (#[trigger] shorter[t]).library@
            != library by {
            assert(shorter[t] == surfaces[t]);
        }
        lemma_library_absent(shorter, library);
    }
}

/// A request for the namespaced id of an operation of a validated surface is
/// routed to that surface and to that operation: what the registry lists is
/// what it forwards.
pub proof fn law_namespaced_ids_resolve_to_their_owner(
    surfaces: Seq<PackageSurface>,
    surface: int,
    operation: int,
)
    requires
        surfaces_check(surfaces) is Ok,
        0 <= surface < surfaces.len(),
        0 <= operation < surfaces[surface].operations@.len(),
    ensures
        resolved(
            surfaces,
            namespaced(surfaces[surface].library@, surfaces[surface].operations@[operation].id@),
        ) == Some((surface, surfaces[surface].operations@[operation].id@)),
{
    lemma_accepted_surfaces(surfaces, 0, Seq::empty(), Seq::empty());
    let library = surfaces[surface].library@;
    let id = surfaces[surface].operations@[operation].id@;
    let requested = namespaced(library, id);
    assert(surfaces[surface] == surfaces[surface]);
    let rest = seq!['/'] + id;
    assert(requested =~= library + rest);
    lemma_first_slash_after_library(library, rest);
    assert(requested.take(library.len() as int) =~= library);
    assert(requested.skip(library.len() as int + 1) =~= id);
    assert forall|t: int| 0 <= t < surface implies (#[trigger] surfaces[t]).library@ != library by {
        assert(surfaces[t].library@ != surfaces[surface].library@);
    }
    lemma_library_first(surfaces, library, surface);
    assert(operation_ids(surfaces[surface].operations@)[operation] == id);
}

proof fn lemma_first_position_found(text: Seq<char>, c: char)
    ensures
        first_position(text, c) matches Some(k) ==> 0 <= k < text.len() && text[k] == c,
    decreases text.len(),
{
    if text.len() > 0 && text[0] != c {
        lemma_first_position_found(text.drop_first(), c);
    }
}

proof fn lemma_library_position_found(surfaces: Seq<PackageSurface>, library: Seq<char>)
    ensures
        library_position(surfaces, library) matches Some(s) ==> 0 <= s < surfaces.len()
            && surfaces[s].library@ == library,
    decreases surfaces.len(),
{
    if surfaces.len() > 0 {
        lemma_library_position_found(surfaces.drop_last(), library);
        if library_position(surfaces.drop_last(), library) is Some {
            let s = library_position(surfaces.drop_last(), library)->Some_0;
            assert(surfaces.drop_last()[s] == surfaces[s]);
        }
    }
}

/// Of a validated registry, a request is routed to an operation exactly when
/// it is the namespaced id of an operation that a surface lists; every other
/// request, un-namespaced or naming an unknown library or operation, is
/// unsupported.
pub proof fn law_unlisted_requests_are_unsupported(surfaces: Seq<PackageSurface>, requested: Seq<char>)
    requires
        surfaces_check(surfaces) is Ok,
    ensures
        resolved(surfaces, requested) is None <==> forall|s: int, o: int|
            0 <= s < surfaces.len() && 0 <= o < surfaces[s].operations@.len() ==> requested
                != namespaced(#[trigger] surfaces[s].library@, #[trigger] surfaces[s].operations@[o].id@),
{
    if resolved(surfaces, requested) is Some {
        let (s, operation) = resolved(surfaces, requested)->Some_0;
        lemma_first_position_found(requested, '/');
        let k = first_position(requested, '/')->Some_0;
        let library = requested.take(k);
        lemma_library_position_found(surfaces, library);
        let ids = operation_ids(surfaces[s].operations@);
        let o = choose|o: int| 0 <= o < ids.len() && ids[o] == operation;
        assert(ids[o] == surfaces[s].operations@[o].id@);
        assert(requested =~= namespaced(library, requested.skip(k + 1)));
        assert(requested == namespaced(surfaces[s].library@, surfaces[s].operations@[o].id@));
    } else {
        assert forall|s: int, o: int|
            0 <= s < surfaces.len() && 0 <= o < surfaces[s].operations@.len() implies requested
                != namespaced(#[trigger] surfaces[s].library@, #[trigger] surfaces[s].operations@[o].id@)
            by {
            if requested == namespaced(surfaces[s].library@, surfaces[s].operations@[o].id@) {
                law_namespaced_ids_resolve_to_their_owner(surfaces, s, o);
            }
        }
    }
}

/// Every library name is non-empty, free of `/` and held by one surface
/// only, and every operation id is non-empty, free of `/` and listed once by
/// its surface.
pub open spec fn locally_well_formed(surfaces: Seq<PackageSurface>) -> bool {
    &&& forall|s: int|
        #![trigger surfaces[s]]
        0 <= s < surfaces.len() ==> {
            &&& surfaces[s].library@.len() > 0
            &&& !surfaces[s].library@.contains('/')
            &&& forall|k: int|
                #![trigger operation_ids(surfaces[s].operations@)[k]]
                0 <= k < operation_ids(surfaces[s].operations@).len() ==> operation_ids(
                    surfaces[s].operations@,
                )[k].len() > 0 && !operation_ids(surfaces[s].operations@)[k].contains('/')
            &&& forall|k: int, m: int|
                #![trigger operation_ids(surfaces[s].operations@)[k], operation_ids(surfaces[s].operations@)[m]]
                0 <= k < m < operation_ids(surfaces[s].operations@).len() ==> operation_ids(
                    surfaces[s].operations@,
                )[k] != operation_ids(surfaces[s].operations@)[m]
        }
    &&& forall|s: int, t: int|
        #![trigger surfaces[s], surfaces[t]]
        0 <= s < t < surfaces.len() ==> surfaces[s].library@ != surfaces[t].library@
}

proof fn lemma_well_formed_operations(
    library: Seq<char>,
    ids: Seq<Seq<char>>,
    index: int,
    registered: Seq<Seq<char>>,
)
    requires
        0 <= index <= ids.len(),
        !library.contains('/'),
        forall|k: int| #![trigger ids[k]] index <= k < ids.len() ==> ids[k].len() > 0 && !ids[k].contains('/'),
        forall|k: int, m: int| #![trigger ids[k], ids[m]] index <= k < m < ids.len() ==> ids[k] != ids[m],
        forall|k: int| #![trigger ids[k]] index <= k < ids.len() ==> !registered.contains(namespaced(library, ids[k])),
    ensures
        check_operations(library, ids, index, registered) is Ok,
        check_operations(library, ids, index, registered) matches Ok(after) ==> forall|x: Seq<char>|
            #[trigger] after.contains(x) ==> registered.contains(x) || exists|j: int|
                index <= j < ids.len() && x == namespaced(library, #[trigger] ids[j]),
    decreases ids.len() - index,
{
    if index < ids.len() {
        let added = namespaced(library, ids[index]);
        let next = registered.push(added);
        assert forall|k: int| #![trigger ids[k]] index + 1 <= k < ids.len() implies !next.contains(
            namespaced(library, ids[k]),
        ) by {
            if next.contains(namespaced(library, ids[k])) {
                let t = choose|t: int| 0 <= t < next.len() && next[t] == namespaced(library, ids[k]);
                if t == registered.len() {
                    lemma_namespaced_split(library, ids[index], library, ids[k]);
                    assert(ids[index] != ids[k]);
                } else {
                    assert(registered[t] == next[t]);
                }
            }
        }
        lemma_well_formed_operations(library, ids, index + 1, next);
        let after = check_operations(library, ids, index + 1, next)->Ok_0;
        assert forall|x: Seq<char>| #[trigger] after.contains(x) implies registered.contains(x) || exists|
            j: int,
        | index <= j < ids.len() && x == namespaced(library, #[trigger] ids[j]) by {
            if next.contains(x) && !registered.contains(x) {
                let t = choose|t: int| 0 <= t < next.len() && next[t] == x;
                if t < registered.len() {
                    assert(registered[t] == x);
                } else {
                    assert(x == namespaced(library, ids[index]));
                }
            }
        }
    }
}

proof fn lemma_well_formed_accepted(
    surfaces: Seq<PackageSurface>,
    index: int,
    libraries: Seq<Seq<char>>,
    registered: Seq<Seq<char>>,
)
    requires
        locally_well_formed(surfaces),
        0 <= index <= surfaces.len(),
        forall|x: Seq<char>|
            #[trigger] libraries.contains(x) ==> exists|t: int|
                0 <= t < index && x == (#[trigger] surfaces[t]).library@,
        forall|x: Seq<char>|
            #[trigger] registered.contains(x) ==> exists|t: int, y: Seq<char>|
                0 <= t < index && x == #[trigger] namespaced(surfaces[t].library@, y),
    ensures
        check_surfaces(surfaces, index, libraries, registered) is Ok,
    decreases surfaces.len() - index,
{
    if index < surfaces.len() {
        let library = surfaces[index].library@;
        let ids = operation_ids(surfaces[index].operations@);
        assert(surfaces[index] == surfaces[index]);
        if libraries.contains(library) {
            let t = choose|t: int| 0 <= t < index && library == (#[trigger] surfaces[t]).library@;
            assert(surfaces[t].library@ != surfaces[index].library@);
        }
        assert forall|k: int| #![trigger ids[k]] 0 <= k < ids.len() implies !registered.contains(
            namespaced(library, ids[k]),
        ) by {
            if registered.contains(namespaced(library, ids[k])) {
                let (t, y) = choose|t: int, y: Seq<char>|
                    0 <= t < index && namespaced(library, ids[k]) == #[trigger] namespaced(
                        surfaces[t].library@,
                        y,
                    );
                assert(surfaces[t] == surfaces[t]);
                lemma_namespaced_split(library, ids[k], surfaces[t].library@, y);
                assert(surfaces[t].library@ != surfaces[index].library@);
            }
        }
        lemma_well_formed_operations(library, ids, 0, registered);
        let after = check_operations(library, ids, 0, registered)->Ok_0;
        let next = libraries.push(library);
        assert forall|x: Seq<char>| #[trigger] next.contains(x) implies exists|t: int|
            0 <= t < index + 1 && x == (#[trigger] surfaces[t]).library@ by {
            let i = choose|i: int| 0 <= i < next.len() && next[i] == x;
            if i < libraries.len() {
                assert(libraries[i] == x);
                assert(libraries.contains(x));
            } else {
                assert(x == surfaces[index].library@);
            }
        }
        assert forall|x: Seq<char>| #[trigger] after.contains(x) implies exists|t: int, y: Seq<char>|
            0 <= t < index + 1 && x == #[trigger] namespaced(surfaces[t].library@, y) by {
            if registered.contains(x) {
                let (t, y) = choose|t: int, y: Seq<char>|
                    0 <= t < index && x == #[trigger] namespaced(surfaces[t].library@, y);
                assert(0 <= t < index + 1 && x == namespaced(surfaces[t].library@, y));
            } else {
                let j = choose|j: int| 0 <= j < ids.len() && x == namespaced(library, #[trigger] ids[j]);
                assert(x == namespaced(surfaces[index].library@, ids[j]));
            }
        }
        lemma_well_formed_accepted(surfaces, index + 1, next, after);
    }
}

/// Every library name is non-empty, free of `/` and held by one surface
/// only, every operation id is non-empty and free of `/`, and no two
/// operations share a namespaced id `library/operation`.
pub open spec fn well_formed_surfaces(surfaces: Seq<PackageSurface>) -> bool {
    &&& forall|s: int|
        #![trigger surfaces[s]]
        0 <= s < surfaces.len() ==> {
            &&& surfaces[s].library@.len() > 0
            &&& !surfaces[s].library@.contains('/')
            &&& forall|k: int|
                #![trigger surfaces[s].operations@[k]]
                0 <= k < surfaces[s].operations@.len() ==> surfaces[s].operations@[k].id@.len() > 0
                    && !surfaces[s].operations@[k].id@.contains('/')
        }
    &&& forall|s: int, t: int|
        #![trigger surfaces[s], surfaces[t]]
        0 <= s < t < surfaces.len() ==> surfaces[s].library@ != surfaces[t].library@
    &&& forall|s: int, o: int, t: int, p: int|
        #![trigger surfaces[s].operations@[o], surfaces[t].operations@[p]]
        0 <= s < surfaces.len() && 0 <= t < surfaces.len() && 0 <= o < surfaces[s].operations@.len()
            && 0 <= p < surfaces[t].operations@.len() && (s != t || o != p) ==> namespaced(
            surfaces[s].library@,
            surfaces[s].operations@[o].id@,
        ) != namespaced(surfaces[t].library@, surfaces[t].operations@[p].id@)
}

proof fn lemma_local_from_global(surfaces: Seq<PackageSurface>)
    requires
        well_formed_surfaces(surfaces),
    ensures
        locally_well_formed(surfaces),
{
    assert forall|s: int| #![trigger surfaces[s]] 0 <= s < surfaces.len() implies {
        &&& surfaces[s].library@.len() > 0
        &&& !surfaces[s].library@.contains('/')
        &&& forall|k: int|
            #![trigger operation_ids(surfaces[s].operations@)[k]]
            0 <= k < operation_ids(surfaces[s].operations@).len() ==> operation_ids(
                surfaces[s].operations@,
            )[k].len() > 0 && !operation_ids(surfaces[s].operations@)[k].contains('/')
        &&& forall|k: int, m: int|
            #![trigger operation_ids(surfaces[s].operations@)[k], operation_ids(surfaces[s].operations@)[m]]
            0 <= k < m < operation_ids(surfaces[s].operations@).len() ==> operation_ids(
                surfaces[s].operations@,
            )[k] != operation_ids(surfaces[s].operations@)[m]
    } by {
        let ids = operation_ids(surfaces[s].operations@);
        assert forall|k: int| #![trigger ids[k]] 0 <= k < ids.len() implies ids[k].len() > 0
            && !ids[k].contains('/') by {
            assert(ids[k] == surfaces[s].operations@[k].id@);
        }
        assert forall|k: int, m: int| #![trigger ids[k], ids[m]] 0 <= k < m < ids.len() implies ids[k]
            != ids[m] by {
            assert(ids[k] == surfaces[s].operations@[k].id@);
            assert(ids[m] == surfaces[s].operations@[m].id@);
            assert(namespaced(surfaces[s].library@, surfaces[s].operations@[k].id@) != namespaced(
                surfaces[s].library@,
                surfaces[s].operations@[m].id@,
            ));
        }
    }
}

proof fn lemma_global_from_accepted(surfaces: Seq<PackageSurface>)
    requires
        surfaces_check(surfaces) is Ok,
    ensures
        well_formed_surfaces(surfaces),
{
    lemma_accepted_surfaces(surfaces, 0, Seq::empty(), Seq::empty());
    assert forall|s: int| #![trigger surfaces[s]] 0 <= s < surfaces.len() implies {
        &&& surfaces[s].library@.len() > 0
        &&& !surfaces[s].library@.contains('/')
        &&& forall|k: int|
            #![trigger surfaces[s].operations@[k]]
            0 <= k < surfaces[s].operations@.len() ==> surfaces[s].operations@[k].id@.len() > 0
                && !surfaces[s].operations@[k].id@.contains('/')
    } by {
        assert forall|k: int| #![trigger surfaces[s].operations@[k]] 0 <= k < surfaces[s].operations@.len()
            implies surfaces[s].operations@[k].id@.len() > 0 && !surfaces[s].operations@[k].id@.contains(
            '/',
        ) by {
            assert(operation_ids(surfaces[s].operations@)[k] == surfaces[s].operations@[k].id@);
        }
    }
    assert forall|s: int, o: int, t: int, p: int|
        #![trigger surfaces[s].operations@[o], surfaces[t].operations@[p]]
        0 <= s < surfaces.len() && 0 <= t < surfaces.len() && 0 <= o < surfaces[s].operations@.len()
            && 0 <= p < surfaces[t].operations@.len() && (s != t || o != p) implies namespaced(
            surfaces[s].library@,
            surfaces[s].operations@[o].id@,
        ) != namespaced(surfaces[t].library@, surfaces[t].operations@[p].id@) by {
        law_validated_ids_are_unambiguous(surfaces, s, o, t, p);
    }
}

/// A set of package surfaces validates exactly when it is well formed: every
/// library non-empty, free of `/` and unique, every operation id non-empty
/// and free of `/`, and every namespaced id `library/operation` unique
/// overall.
pub proof fn law_validation_accepts_exactly_well_formed_surfaces(surfaces: Seq<PackageSurface>)
    ensures
        surfaces_check(surfaces) is Ok <==> well_formed_surfaces(surfaces),
{
    if surfaces_check(surfaces) is Ok {
        lemma_global_from_accepted(surfaces);
    }
    if well_formed_surfaces(surfaces) {
        lemma_local_from_global(surfaces);
        lemma_well_formed_accepted(surfaces, 0, Seq::empty(), Seq::empty());
    }
}

} // verus!
