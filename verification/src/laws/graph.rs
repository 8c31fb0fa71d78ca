//! Properties of the linguistic semantic graph.

use vstd::prelude::*;

use crate::graph::{
    argument_edges, canonical_edges, canonical_mention_edges, concept_membership, contains_text,
    coref_edges, lowercase, relation_node_id, GraphEvidence,
    coref_mention_edges, discourse_edges, endpoint_edges, entity_edges, event_edges, graph_edges,
    membership_edges, neighbor_edges, one_event_edges, one_relation_edges, one_segment_edges,
    primary_of, relation_edges, relation_unit, segment_unit_edges, topic_edges, topic_unit_edges,
    unit_at, ConceptSummary, DiscourseSegment, EdgeView, LinguisticAnalysis, LinguisticCanonicalEntity,
    LinguisticCoreference, LinguisticEntity, LinguisticEvent, LinguisticRelation, TopicCluster, UnitPair,
};
use crate::model::{SemanticGraphEdgeKind, SemanticUnitKind};
use crate::units::StructuralUnit;

verus! {

/// Whether an edge of this kind says that a unit holds something.
pub open spec fn from_unit(kind: SemanticGraphEdgeKind) -> bool {
    ||| kind == SemanticGraphEdgeKind::UnitContainsMention
    ||| kind == SemanticGraphEdgeKind::UnitContainsEvent
    ||| kind == SemanticGraphEdgeKind::UnitContainsRelation
    ||| kind == SemanticGraphEdgeKind::UnitContainsDiscourse
    ||| kind == SemanticGraphEdgeKind::UnitTopic
}

/// Whether `id` is the id of one of the primary units.
pub open spec fn is_unit_id(primary: Seq<StructuralUnit>, id: Seq<char>) -> bool {
    exists|i: int| 0 <= i < primary.len() && #[trigger] primary[i].id@ == id
}

/// Every edge that says a unit holds something starts at a primary unit.
pub open spec fn sourced_by_units(primary: Seq<StructuralUnit>, edges: Seq<EdgeView>) -> bool {
    forall|k: int|
        0 <= k < edges.len() && from_unit(#[trigger] edges[k].kind) ==> is_unit_id(primary, edges[k].source_id)
}

proof fn lemma_concat(primary: Seq<StructuralUnit>, a: Seq<EdgeView>, b: Seq<EdgeView>)
    requires
        sourced_by_units(primary, a),
        sourced_by_units(primary, b),
    ensures
        sourced_by_units(primary, a + b),
{
    assert forall|k: int| 0 <= k < (a + b).len() && from_unit(#[trigger] (a + b)[k].kind) implies is_unit_id(
        primary,
        (a + b)[k].source_id,
    ) by {
        if k < a.len() {
            assert((a + b)[k] == a[k]);
        } else {
            assert((a + b)[k] == b[k - a.len()]);
        }
    }
}

proof fn lemma_push(primary: Seq<StructuralUnit>, a: Seq<EdgeView>, edge: EdgeView)
    requires
        sourced_by_units(primary, a),
        from_unit(edge.kind) ==> is_unit_id(primary, edge.source_id),
    ensures
        sourced_by_units(primary, a.push(edge)),
{
    assert forall|k: int| 0 <= k < a.push(edge).len() && from_unit(#[trigger] a.push(edge)[k].kind) implies is_unit_id(
        primary,
        a.push(edge)[k].source_id,
    ) by {
        if k < a.len() {
            assert(a.push(edge)[k] == a[k]);
        }
    }
}

proof fn lemma_unit_at(primary: Seq<StructuralUnit>, sequence_index: int)
    ensures
        unit_at(primary, sequence_index) matches Some(id) ==> is_unit_id(primary, id),
    decreases primary.len(),
{
    if primary.len() > 0 {
        lemma_unit_at(primary.drop_last(), sequence_index);
        if let Some(id) = unit_at(primary.drop_last(), sequence_index) {
            if primary.last().sequence_index != sequence_index {
                let i = choose|i: int| 0 <= i < primary.drop_last().len() && #[trigger] primary.drop_last()[i].id@ == id;
                assert(primary[i].id@ == id);
            }
        }
        assert(primary[primary.len() - 1] == primary.last());
    }
}

proof fn lemma_relation_unit(primary: Seq<StructuralUnit>, subject: Seq<char>, object: Seq<char>, from: int)
    requires
        0 <= from,
    ensures
        relation_unit(primary, subject, object, from) matches Some(id) ==> is_unit_id(primary, id),
    decreases primary.len() - from,
{
    if from < primary.len() {
        lemma_relation_unit(primary, subject, object, from + 1);
    }
}

proof fn lemma_neighbors(primary: Seq<StructuralUnit>, neighbors: Seq<UnitPair>)
    ensures
        sourced_by_units(primary, neighbor_edges(neighbors)),
{
}

proof fn lemma_memberships(primary: Seq<StructuralUnit>, concepts: Seq<ConceptSummary>, count: int)
    ensures
        sourced_by_units(primary, membership_edges(concepts, count)),
    decreases count,
{
    if count > 0 {
        lemma_memberships(primary, concepts, count - 1);
        assert(sourced_by_units(primary, concept_membership(concepts[count - 1])));
        lemma_concat(primary, membership_edges(concepts, count - 1), concept_membership(concepts[count - 1]));
    }
}

proof fn lemma_entities(primary: Seq<StructuralUnit>, entities: Seq<LinguisticEntity>, count: int)
    ensures
        sourced_by_units(primary, entity_edges(primary, entities, count)),
    decreases count,
{
    if count > 0 {
        lemma_entities(primary, entities, count - 1);
        lemma_unit_at(primary, entities[count - 1].sentence_index as int);
        if let Some(unit) = unit_at(primary, entities[count - 1].sentence_index as int) {
            let earlier = entity_edges(primary, entities, count - 1);
            let edge = entity_edges(primary, entities, count).last();
            assert(entity_edges(primary, entities, count) == earlier.push(edge));
            lemma_push(primary, earlier, edge);
        }
    }
}

proof fn lemma_canonical_mentions(
    primary: Seq<StructuralUnit>,
    entities: Seq<LinguisticEntity>,
    canonical: LinguisticCanonicalEntity,
    index: int,
    count: int,
)
    ensures
        sourced_by_units(primary, canonical_mention_edges(entities, canonical, index, count)),
    decreases count,
{
    if count > 0 {
        lemma_canonical_mentions(primary, entities, canonical, index, count - 1);
        let earlier = canonical_mention_edges(entities, canonical, index, count - 1);
        let now = canonical_mention_edges(entities, canonical, index, count);
        if now.len() > earlier.len() {
            lemma_push(primary, earlier, now.last());
            assert(now == earlier.push(now.last()));
        }
    }
}

proof fn lemma_canonicals(
    primary: Seq<StructuralUnit>,
    entities: Seq<LinguisticEntity>,
    canonicals: Seq<LinguisticCanonicalEntity>,
    count: int,
)
    ensures
        sourced_by_units(primary, canonical_edges(entities, canonicals, count)),
    decreases count,
{
    if count > 0 {
        lemma_canonicals(primary, entities, canonicals, count - 1);
        let canonical = canonicals[count - 1];
        lemma_canonical_mentions(primary, entities, canonical, count - 1, canonical.mention_ids@.len() as int);
        lemma_concat(
            primary,
            canonical_edges(entities, canonicals, count - 1),
            canonical_mention_edges(entities, canonical, count - 1, canonical.mention_ids@.len() as int),
        );
    }
}

proof fn lemma_coref_mentions(primary: Seq<StructuralUnit>, cluster: LinguisticCoreference, index: int, count: int)
    ensures
        sourced_by_units(primary, coref_mention_edges(primary, cluster, index, count)),
    decreases count,
{
    if count > 0 {
        lemma_coref_mentions(primary, cluster, index, count - 1);
        let mention = cluster.mentions@[count - 1];
        lemma_unit_at(primary, mention.sentence_index as int);
        let earlier = coref_mention_edges(primary, cluster, index, count - 1);
        let now = coref_mention_edges(primary, cluster, index, count);
        let first = now[earlier.len() as int];
        assert(!from_unit(first.kind));
        lemma_push(primary, earlier, first);
        if now.len() > earlier.len() + 1 {
            assert(now == earlier.push(first).push(now.last()));
            lemma_push(primary, earlier.push(first), now.last());
        } else {
            assert(now == earlier.push(first));
        }
    }
}

proof fn lemma_corefs(primary: Seq<StructuralUnit>, clusters: Seq<LinguisticCoreference>, count: int)
    ensures
        sourced_by_units(primary, coref_edges(primary, clusters, count)),
    decreases count,
{
    if count > 0 {
        lemma_corefs(primary, clusters, count - 1);
        let cluster = clusters[count - 1];
        lemma_coref_mentions(primary, cluster, count - 1, cluster.mentions@.len() as int);
        lemma_concat(
            primary,
            coref_edges(primary, clusters, count - 1),
            coref_mention_edges(primary, cluster, count - 1, cluster.mentions@.len() as int),
        );
    }
}

proof fn lemma_arguments(
    primary: Seq<StructuralUnit>,
    canonicals: Seq<LinguisticCanonicalEntity>,
    event: LinguisticEvent,
    e: int,
    count: int,
)
    ensures
        sourced_by_units(primary, argument_edges(canonicals, event, e, count)),
    decreases count,
{
    if count > 0 {
        lemma_arguments(primary, canonicals, event, e, count - 1);
        let earlier = argument_edges(canonicals, event, e, count - 1);
        let now = argument_edges(canonicals, event, e, count);
        let first = now[earlier.len() as int];
        lemma_push(primary, earlier, first);
        if now.len() > earlier.len() + 1 {
            assert(now == earlier.push(first).push(now.last()));
            lemma_push(primary, earlier.push(first), now.last());
        } else {
            assert(now == earlier.push(first));
        }
    }
}

proof fn lemma_events(
    primary: Seq<StructuralUnit>,
    canonicals: Seq<LinguisticCanonicalEntity>,
    events: Seq<LinguisticEvent>,
    count: int,
)
    ensures
        sourced_by_units(primary, event_edges(primary, canonicals, events, count)),
    decreases count,
{
    if count > 0 {
        lemma_events(primary, canonicals, events, count - 1);
        let event = events[count - 1];
        lemma_unit_at(primary, event.sentence_index as int);
        lemma_arguments(primary, canonicals, event, count - 1, event.arguments@.len() as int);
        let arguments = argument_edges(canonicals, event, count - 1, event.arguments@.len() as int);
        let whole = one_event_edges(primary, canonicals, event, count - 1);
        let contains = whole.take(whole.len() - arguments.len());
        assert(whole == contains + arguments);
        assert(sourced_by_units(primary, contains));
        lemma_concat(primary, contains, arguments);
        lemma_concat(primary, event_edges(primary, canonicals, events, count - 1), whole);
    }
}

proof fn lemma_relations(
    primary: Seq<StructuralUnit>,
    canonicals: Seq<LinguisticCanonicalEntity>,
    relations: Seq<LinguisticRelation>,
    count: int,
)
    ensures
        sourced_by_units(primary, relation_edges(primary, canonicals, relations, count)),
    decreases count,
{
    if count > 0 {
        lemma_relations(primary, canonicals, relations, count - 1);
        let relation = relations[count - 1];
        let r = count - 1;
        lemma_relation_unit(primary, relation.subject@, relation.object@, 0);
        let subject = endpoint_edges(canonicals, r, "subject"@, relation.subject@, SemanticGraphEdgeKind::RelationSubject);
        let object = endpoint_edges(canonicals, r, "object"@, relation.object@, SemanticGraphEdgeKind::RelationObject);
        assert(sourced_by_units(primary, subject));
        assert(sourced_by_units(primary, object));
        let whole = one_relation_edges(primary, canonicals, relation, r);
        let contains = whole.take(whole.len() - subject.len() - object.len());
        assert(whole == contains + subject + object);
        assert(sourced_by_units(primary, contains));
        lemma_concat(primary, contains, subject);
        lemma_concat(primary, contains + subject, object);
        lemma_concat(primary, relation_edges(primary, canonicals, relations, count - 1), whole);
    }
}

proof fn lemma_segment_units(primary: Seq<StructuralUnit>, segment: DiscourseSegment, d: int, upto: int)
    ensures
        sourced_by_units(primary, segment_unit_edges(primary, segment, d, upto)),
    decreases upto - segment.sentence_start,
{
    if upto > segment.sentence_start {
        lemma_segment_units(primary, segment, d, upto - 1);
        lemma_unit_at(primary, upto - 1);
        let earlier = segment_unit_edges(primary, segment, d, upto - 1);
        let now = segment_unit_edges(primary, segment, d, upto);
        if now.len() > earlier.len() {
            assert(now == earlier.push(now.last()));
            lemma_push(primary, earlier, now.last());
        }
    }
}

proof fn lemma_discourse(primary: Seq<StructuralUnit>, segments: Seq<DiscourseSegment>, count: int)
    ensures
        sourced_by_units(primary, discourse_edges(primary, segments, count)),
    decreases count,
{
    if count > 0 {
        lemma_discourse(primary, segments, count - 1);
        let segment = segments[count - 1];
        lemma_segment_units(primary, segment, count - 1, segment.sentence_end as int);
        let contained = segment_unit_edges(primary, segment, count - 1, segment.sentence_end as int);
        let whole = one_segment_edges(primary, segment, count - 1);
        if whole.len() > contained.len() {
            assert(whole == contained.push(whole.last()));
            lemma_push(primary, contained, whole.last());
        }
        lemma_concat(primary, discourse_edges(primary, segments, count - 1), whole);
    }
}

proof fn lemma_topic_units(primary: Seq<StructuralUnit>, topic: TopicCluster, t: int, count: int)
    ensures
        sourced_by_units(primary, topic_unit_edges(primary, topic, t, count)),
    decreases count,
{
    if count > 0 {
        lemma_topic_units(primary, topic, t, count - 1);
        lemma_unit_at(primary, topic.sentence_indices@[count - 1] as int);
        let earlier = topic_unit_edges(primary, topic, t, count - 1);
        let now = topic_unit_edges(primary, topic, t, count);
        if now.len() > earlier.len() {
            assert(now == earlier.push(now.last()));
            lemma_push(primary, earlier, now.last());
        }
    }
}

proof fn lemma_topics(primary: Seq<StructuralUnit>, topics: Seq<TopicCluster>, count: int)
    ensures
        sourced_by_units(primary, topic_edges(primary, topics, count)),
    decreases count,
{
    if count > 0 {
        lemma_topics(primary, topics, count - 1);
        let topic = topics[count - 1];
        lemma_topic_units(primary, topic, count - 1, topic.sentence_indices@.len() as int);
        lemma_concat(
            primary,
            topic_edges(primary, topics, count - 1),
            topic_unit_edges(primary, topic, count - 1, topic.sentence_indices@.len() as int),
        );
    }
}

/// No edge says that a unit holds a relation.
pub open spec fn no_relation_containment(edges: Seq<EdgeView>) -> bool {
    forall|k: int| 0 <= k < edges.len() ==> (#[trigger] edges[k]).kind != SemanticGraphEdgeKind::UnitContainsRelation
}

proof fn lemma_nr_concat(a: Seq<EdgeView>, b: Seq<EdgeView>)
    requires
        no_relation_containment(a),
        no_relation_containment(b),
    ensures
        no_relation_containment(a + b),
{
    assert forall|k: int| 0 <= k < (a + b).len() implies (#[trigger] (a + b)[k]).kind
        != SemanticGraphEdgeKind::UnitContainsRelation by {
        if k < a.len() {
            assert((a + b)[k] == a[k]);
        } else {
            assert((a + b)[k] == b[k - a.len()]);
        }
    }
}

proof fn lemma_nr_push(a: Seq<EdgeView>, edge: EdgeView)
    requires
        no_relation_containment(a),
        edge.kind != SemanticGraphEdgeKind::UnitContainsRelation,
    ensures
        no_relation_containment(a.push(edge)),
{
    assert forall|k: int| 0 <= k < a.push(edge).len() implies (#[trigger] a.push(edge)[k]).kind
        != SemanticGraphEdgeKind::UnitContainsRelation by {
        if k < a.len() {
            assert(a.push(edge)[k] == a[k]);
        }
    }
}

proof fn lemma_neighbors_kinds(primary: Seq<StructuralUnit>, neighbors: Seq<UnitPair>)
    ensures
        no_relation_containment(neighbor_edges(neighbors)),
{
}

proof fn lemma_memberships_kinds(primary: Seq<StructuralUnit>, concepts: Seq<ConceptSummary>, count: int)
    ensures
        no_relation_containment(membership_edges(concepts, count)),
    decreases count,
{
    if count > 0 {
        lemma_memberships_kinds(primary, concepts, count - 1);
        assert(no_relation_containment(concept_membership(concepts[count - 1])));
        lemma_nr_concat(membership_edges(concepts, count - 1), concept_membership(concepts[count - 1]));
    }
}

proof fn lemma_entities_kinds(primary: Seq<StructuralUnit>, entities: Seq<LinguisticEntity>, count: int)
    ensures
        no_relation_containment(entity_edges(primary, entities, count)),
    decreases count,
{
    if count > 0 {
        lemma_entities_kinds(primary, entities, count - 1);
        lemma_unit_at(primary, entities[count - 1].sentence_index as int);
        if let Some(unit) = unit_at(primary, entities[count - 1].sentence_index as int) {
            let earlier = entity_edges(primary, entities, count - 1);
            let edge = entity_edges(primary, entities, count).last();
            assert(entity_edges(primary, entities, count) == earlier.push(edge));
            lemma_nr_push(earlier, edge);
        }
    }
}

proof fn lemma_canonical_mentions_kinds(
    primary: Seq<StructuralUnit>,
    entities: Seq<LinguisticEntity>,
    canonical: LinguisticCanonicalEntity,
    index: int,
    count: int,
)
    ensures
        no_relation_containment(canonical_mention_edges(entities, canonical, index, count)),
    decreases count,
{
    if count > 0 {
        lemma_canonical_mentions_kinds(primary, entities, canonical, index, count - 1);
        let earlier = canonical_mention_edges(entities, canonical, index, count - 1);
        let now = canonical_mention_edges(entities, canonical, index, count);
        if now.len() > earlier.len() {
            lemma_nr_push(earlier, now.last());
            assert(now == earlier.push(now.last()));
        }
    }
}

proof fn lemma_canonicals_kinds(
    primary: Seq<StructuralUnit>,
    entities: Seq<LinguisticEntity>,
    canonicals: Seq<LinguisticCanonicalEntity>,
    count: int,
)
    ensures
        no_relation_containment(canonical_edges(entities, canonicals, count)),
    decreases count,
{
    if count > 0 {
        lemma_canonicals_kinds(primary, entities, canonicals, count - 1);
        let canonical = canonicals[count - 1];
        lemma_canonical_mentions_kinds(primary, entities, canonical, count - 1, canonical.mention_ids@.len() as int);
        lemma_nr_concat(canonical_edges(entities, canonicals, count - 1),
            canonical_mention_edges(entities, canonical, count - 1, canonical.mention_ids@.len() as int),
        );
    }
}

proof fn lemma_coref_mentions_kinds(primary: Seq<StructuralUnit>, cluster: LinguisticCoreference, index: int, count: int)
    ensures
        no_relation_containment(coref_mention_edges(primary, cluster, index, count)),
    decreases count,
{
    if count > 0 {
        lemma_coref_mentions_kinds(primary, cluster, index, count - 1);
        let mention = cluster.mentions@[count - 1];
        lemma_unit_at(primary, mention.sentence_index as int);
        let earlier = coref_mention_edges(primary, cluster, index, count - 1);
        let now = coref_mention_edges(primary, cluster, index, count);
        let first = now[earlier.len() as int];
        lemma_nr_push(earlier, first);
        if now.len() > earlier.len() + 1 {
            assert(now == earlier.push(first).push(now.last()));
            lemma_nr_push(earlier.push(first), now.last());
        } else {
            assert(now == earlier.push(first));
        }
    }
}

proof fn lemma_corefs_kinds(primary: Seq<StructuralUnit>, clusters: Seq<LinguisticCoreference>, count: int)
    ensures
        no_relation_containment(coref_edges(primary, clusters, count)),
    decreases count,
{
    if count > 0 {
        lemma_corefs_kinds(primary, clusters, count - 1);
        let cluster = clusters[count - 1];
        lemma_coref_mentions_kinds(primary, cluster, count - 1, cluster.mentions@.len() as int);
        lemma_nr_concat(coref_edges(primary, clusters, count - 1),
            coref_mention_edges(primary, cluster, count - 1, cluster.mentions@.len() as int),
        );
    }
}

proof fn lemma_arguments_kinds(
    primary: Seq<StructuralUnit>,
    canonicals: Seq<LinguisticCanonicalEntity>,
    event: LinguisticEvent,
    e: int,
    count: int,
)
    ensures
        no_relation_containment(argument_edges(canonicals, event, e, count)),
    decreases count,
{
    if count > 0 {
        lemma_arguments_kinds(primary, canonicals, event, e, count - 1);
        let earlier = argument_edges(canonicals, event, e, count - 1);
        let now = argument_edges(canonicals, event, e, count);
        let first = now[earlier.len() as int];
        lemma_nr_push(earlier, first);
        if now.len() > earlier.len() + 1 {
            assert(now == earlier.push(first).push(now.last()));
            lemma_nr_push(earlier.push(first), now.last());
        } else {
            assert(now == earlier.push(first));
        }
    }
}

proof fn lemma_events_kinds(
    primary: Seq<StructuralUnit>,
    canonicals: Seq<LinguisticCanonicalEntity>,
    events: Seq<LinguisticEvent>,
    count: int,
)
    ensures
        no_relation_containment(event_edges(primary, canonicals, events, count)),
    decreases count,
{
    if count > 0 {
        lemma_events_kinds(primary, canonicals, events, count - 1);
        let event = events[count - 1];
        lemma_unit_at(primary, event.sentence_index as int);
        lemma_arguments_kinds(primary, canonicals, event, count - 1, event.arguments@.len() as int);
        let arguments = argument_edges(canonicals, event, count - 1, event.arguments@.len() as int);
        let whole = one_event_edges(primary, canonicals, event, count - 1);
        let contains = whole.take(whole.len() - arguments.len());
        assert(whole == contains + arguments);
        assert(no_relation_containment(contains));
        lemma_nr_concat(contains, arguments);
        lemma_nr_concat(event_edges(primary, canonicals, events, count - 1), whole);
    }
}

proof fn lemma_segment_units_kinds(primary: Seq<StructuralUnit>, segment: DiscourseSegment, d: int, upto: int)
    ensures
        no_relation_containment(segment_unit_edges(primary, segment, d, upto)),
    decreases upto - segment.sentence_start,
{
    if upto > segment.sentence_start {
        lemma_segment_units_kinds(primary, segment, d, upto - 1);
        lemma_unit_at(primary, upto - 1);
        let earlier = segment_unit_edges(primary, segment, d, upto - 1);
        let now = segment_unit_edges(primary, segment, d, upto);
        if now.len() > earlier.len() {
            assert(now == earlier.push(now.last()));
            lemma_nr_push(earlier, now.last());
        }
    }
}

proof fn lemma_discourse_kinds(primary: Seq<StructuralUnit>, segments: Seq<DiscourseSegment>, count: int)
    ensures
        no_relation_containment(discourse_edges(primary, segments, count)),
    decreases count,
{
    if count > 0 {
        lemma_discourse_kinds(primary, segments, count - 1);
        let segment = segments[count - 1];
        lemma_segment_units_kinds(primary, segment, count - 1, segment.sentence_end as int);
        let contained = segment_unit_edges(primary, segment, count - 1, segment.sentence_end as int);
        let whole = one_segment_edges(primary, segment, count - 1);
        if whole.len() > contained.len() {
            assert(whole == contained.push(whole.last()));
            lemma_nr_push(contained, whole.last());
        }
        lemma_nr_concat(discourse_edges(primary, segments, count - 1), whole);
    }
}

proof fn lemma_topic_units_kinds(primary: Seq<StructuralUnit>, topic: TopicCluster, t: int, count: int)
    ensures
        no_relation_containment(topic_unit_edges(primary, topic, t, count)),
    decreases count,
{
    if count > 0 {
        lemma_topic_units_kinds(primary, topic, t, count - 1);
        lemma_unit_at(primary, topic.sentence_indices@[count - 1] as int);
        let earlier = topic_unit_edges(primary, topic, t, count - 1);
        let now = topic_unit_edges(primary, topic, t, count);
        if now.len() > earlier.len() {
            assert(now == earlier.push(now.last()));
            lemma_nr_push(earlier, now.last());
        }
    }
}

proof fn lemma_topics_kinds(primary: Seq<StructuralUnit>, topics: Seq<TopicCluster>, count: int)
    ensures
        no_relation_containment(topic_edges(primary, topics, count)),
    decreases count,
{
    if count > 0 {
        lemma_topics_kinds(primary, topics, count - 1);
        let topic = topics[count - 1];
        lemma_topic_units_kinds(primary, topic, count - 1, topic.sentence_indices@.len() as int);
        lemma_nr_concat(topic_edges(primary, topics, count - 1),
            topic_unit_edges(primary, topic, count - 1, topic.sentence_indices@.len() as int),
        );
    }
}

/// Linguistic evidence is projected onto the units of the semantic map:
/// every edge of the graph that says a unit holds a mention, an event, a
/// relation, a discourse segment or a topic starts at one of the primary
/// units, whose nodes the graph holds.
pub proof fn law_evidence_attaches_to_primary_units(
    units: Seq<StructuralUnit>,
    primary_kind: SemanticUnitKind,
    neighbors: Seq<UnitPair>,
    concepts: Seq<ConceptSummary>,
    analysis: LinguisticAnalysis,
)
    ensures
        sourced_by_units(primary_of(units, primary_kind), graph_edges(units, primary_kind, neighbors, concepts, analysis)),
{
    let primary = primary_of(units, primary_kind);
    lemma_neighbors(primary, neighbors);
    lemma_memberships(primary, concepts, concepts.len() as int);
    lemma_entities(primary, analysis.entities@, analysis.entities@.len() as int);
    lemma_canonicals(primary, analysis.entities@, analysis.canonical_entities@, analysis.canonical_entities@.len() as int);
    lemma_corefs(primary, analysis.coreference@, analysis.coreference@.len() as int);
    lemma_events(primary, analysis.canonical_entities@, analysis.events@, analysis.events@.len() as int);
    lemma_relations(primary, analysis.canonical_entities@, analysis.relations@, analysis.relations@.len() as int);
    lemma_discourse(primary, analysis.discourse@, analysis.discourse@.len() as int);
    lemma_topics(primary, analysis.topics@, analysis.topics@.len() as int);
    let a = neighbor_edges(neighbors);
    let b = membership_edges(concepts, concepts.len() as int);
    let c = entity_edges(primary, analysis.entities@, analysis.entities@.len() as int);
    let d = canonical_edges(analysis.entities@, analysis.canonical_entities@, analysis.canonical_entities@.len() as int);
    let e = coref_edges(primary, analysis.coreference@, analysis.coreference@.len() as int);
    let f = event_edges(primary, analysis.canonical_entities@, analysis.events@, analysis.events@.len() as int);
    let g = relation_edges(primary, analysis.canonical_entities@, analysis.relations@, analysis.relations@.len() as int);
    let h = discourse_edges(primary, analysis.discourse@, analysis.discourse@.len() as int);
    let i = topic_edges(primary, analysis.topics@, analysis.topics@.len() as int);
    lemma_concat(primary, a, b);
    lemma_concat(primary, a + b, c);
    lemma_concat(primary, a + b + c, d);
    lemma_concat(primary, a + b + c + d, e);
    lemma_concat(primary, a + b + c + d + e, f);
    lemma_concat(primary, a + b + c + d + e + f, g);
    lemma_concat(primary, a + b + c + d + e + f + g, h);
    lemma_concat(primary, a + b + c + d + e + f + g + h, i);
}

/// `unit`'s text in lower case holds both the subject and the object of
/// `relation` in lower case.
pub open spec fn holds_relation(unit: StructuralUnit, relation: LinguisticRelation) -> bool {
    &&& contains_text(lowercase(unit.text@), lowercase(relation.subject@))
    &&& contains_text(lowercase(unit.text@), lowercase(relation.object@))
}

/// `primary[i]` is the first primary unit that holds `relation`.
pub open spec fn first_holder(primary: Seq<StructuralUnit>, relation: LinguisticRelation, i: int) -> bool {
    &&& 0 <= i < primary.len()
    &&& holds_relation(primary[i], relation)
    &&& forall|j: int| 0 <= j < i ==> !holds_relation(#[trigger] primary[j], relation)
}

/// Every edge that says a unit holds a relation goes from the first primary
/// unit that holds the relation's subject and object to that relation.
pub open spec fn relations_held_by_first_holder(
    primary: Seq<StructuralUnit>,
    relations: Seq<LinguisticRelation>,
    edges: Seq<EdgeView>,
) -> bool {
    forall|k: int|
        0 <= k < edges.len() && (#[trigger] edges[k]).kind == SemanticGraphEdgeKind::UnitContainsRelation
            ==> exists|r: int, i: int|
            #![trigger relations[r], primary[i]]
            0 <= r < relations.len() && first_holder(primary, relations[r], i) && edges[k].target_id
                == relation_node_id(r) && edges[k].source_id == primary[i].id@
}

proof fn lemma_held_concat(
    primary: Seq<StructuralUnit>,
    relations: Seq<LinguisticRelation>,
    a: Seq<EdgeView>,
    b: Seq<EdgeView>,
)
    requires
        relations_held_by_first_holder(primary, relations, a),
        relations_held_by_first_holder(primary, relations, b),
    ensures
        relations_held_by_first_holder(primary, relations, a + b),
{
    assert forall|k: int|
        0 <= k < (a + b).len() && (#[trigger] (a + b)[k]).kind == SemanticGraphEdgeKind::UnitContainsRelation
            implies exists|r: int, i: int|
        #![trigger relations[r], primary[i]]
        0 <= r < relations.len() && first_holder(primary, relations[r], i) && (a + b)[k].target_id
            == relation_node_id(r) && (a + b)[k].source_id == primary[i].id@ by {
        if k < a.len() {
            assert((a + b)[k] == a[k]);
        } else {
            assert((a + b)[k] == b[k - a.len()]);
        }
    }
}

proof fn lemma_held_none(primary: Seq<StructuralUnit>, relations: Seq<LinguisticRelation>, a: Seq<EdgeView>)
    requires
        no_relation_containment(a),
    ensures
        relations_held_by_first_holder(primary, relations, a),
{
    assert forall|k: int|
        0 <= k < a.len() && (#[trigger] a[k]).kind == SemanticGraphEdgeKind::UnitContainsRelation implies exists|
        r: int,
        i: int,
    |
        #![trigger relations[r], primary[i]]
        0 <= r < relations.len() && first_holder(primary, relations[r], i) && a[k].target_id
            == relation_node_id(r) && a[k].source_id == primary[i].id@ by {
        assert(a[k].kind != SemanticGraphEdgeKind::UnitContainsRelation);
    }
}

proof fn lemma_relation_unit_first(primary: Seq<StructuralUnit>, relation: LinguisticRelation, from: int)
    requires
        0 <= from,
        forall|j: int| 0 <= j < from && j < primary.len() ==> !holds_relation(#[trigger] primary[j], relation),
    ensures
        relation_unit(primary, relation.subject@, relation.object@, from) matches Some(id) ==> exists|i: int|
            first_holder(primary, relation, i) && #[trigger] primary[i].id@ == id,
    decreases primary.len() - from,
{
    if from < primary.len() {
        if holds_relation(primary[from], relation) {
            assert(first_holder(primary, relation, from));
        } else {
            assert forall|j: int| 0 <= j < from + 1 && j < primary.len() implies !holds_relation(
                #[trigger] primary[j],
                relation,
            ) by {}
            lemma_relation_unit_first(primary, relation, from + 1);
        }
    }
}

proof fn lemma_relation_edges_held(
    primary: Seq<StructuralUnit>,
    canonicals: Seq<LinguisticCanonicalEntity>,
    relations: Seq<LinguisticRelation>,
    count: int,
)
    requires
        count <= relations.len(),
    ensures
        relations_held_by_first_holder(primary, relations, relation_edges(primary, canonicals, relations, count)),
    decreases count,
{
    if count > 0 {
        lemma_relation_edges_held(primary, canonicals, relations, count - 1);
        let r = count - 1;
        let relation = relations[r];
        let subject = endpoint_edges(canonicals, r, "subject"@, relation.subject@, SemanticGraphEdgeKind::RelationSubject);
        let object = endpoint_edges(canonicals, r, "object"@, relation.object@, SemanticGraphEdgeKind::RelationObject);
        assert(no_relation_containment(subject));
        assert(no_relation_containment(object));
        lemma_held_none(primary, relations, subject);
        lemma_held_none(primary, relations, object);
        let whole = one_relation_edges(primary, canonicals, relation, r);
        let contains = whole.take(whole.len() - subject.len() - object.len());
        assert(whole == contains + subject + object);
        lemma_relation_unit_first(primary, relation, 0);
        assert forall|k: int|
            0 <= k < contains.len() && (#[trigger] contains[k]).kind == SemanticGraphEdgeKind::UnitContainsRelation
                implies exists|r2: int, i: int|
            #![trigger relations[r2], primary[i]]
            0 <= r2 < relations.len() && first_holder(primary, relations[r2], i) && contains[k].target_id
                == relation_node_id(r2) && contains[k].source_id == primary[i].id@ by {
            let id = relation_unit(primary, relation.subject@, relation.object@, 0)->Some_0;
            let i = choose|i: int| first_holder(primary, relation, i) && #[trigger] primary[i].id@ == id;
            assert(contains[k].source_id == id);
            assert(relations[r] == relation);
        }
        lemma_held_concat(primary, relations, contains, subject);
        lemma_held_concat(primary, relations, contains + subject, object);
        lemma_held_concat(primary, relations, relation_edges(primary, canonicals, relations, count - 1), whole);
    }
}

/// A relation belongs to the first primary unit whose lower-case text holds
/// both its lower-case subject and its lower-case object: every edge of the
/// graph that says a unit holds a relation goes to that relation's node from
/// such a unit, and no earlier primary unit holds both.
pub proof fn law_relations_belong_to_their_first_holder(
    units: Seq<StructuralUnit>,
    primary_kind: SemanticUnitKind,
    neighbors: Seq<UnitPair>,
    concepts: Seq<ConceptSummary>,
    analysis: LinguisticAnalysis,
)
    ensures
        relations_held_by_first_holder(
            primary_of(units, primary_kind),
            analysis.relations@,
            graph_edges(units, primary_kind, neighbors, concepts, analysis),
        ),
{
    let primary = primary_of(units, primary_kind);
    let relations = analysis.relations@;
    lemma_neighbors_kinds(primary, neighbors);
    lemma_memberships_kinds(primary, concepts, concepts.len() as int);
    lemma_entities_kinds(primary, analysis.entities@, analysis.entities@.len() as int);
    lemma_canonicals_kinds(primary, analysis.entities@, analysis.canonical_entities@, analysis.canonical_entities@.len() as int);
    lemma_corefs_kinds(primary, analysis.coreference@, analysis.coreference@.len() as int);
    lemma_events_kinds(primary, analysis.canonical_entities@, analysis.events@, analysis.events@.len() as int);
    lemma_relation_edges_held(primary, analysis.canonical_entities@, relations, relations.len() as int);
    lemma_discourse_kinds(primary, analysis.discourse@, analysis.discourse@.len() as int);
    lemma_topics_kinds(primary, analysis.topics@, analysis.topics@.len() as int);
    let a = neighbor_edges(neighbors);
    let b = membership_edges(concepts, concepts.len() as int);
    let c = entity_edges(primary, analysis.entities@, analysis.entities@.len() as int);
    let d = canonical_edges(analysis.entities@, analysis.canonical_entities@, analysis.canonical_entities@.len() as int);
    let e = coref_edges(primary, analysis.coreference@, analysis.coreference@.len() as int);
    let f = event_edges(primary, analysis.canonical_entities@, analysis.events@, analysis.events@.len() as int);
    let g = relation_edges(primary, analysis.canonical_entities@, relations, relations.len() as int);
    let h = discourse_edges(primary, analysis.discourse@, analysis.discourse@.len() as int);
    let i = topic_edges(primary, analysis.topics@, analysis.topics@.len() as int);
    lemma_nr_concat(a, b);
    lemma_nr_concat(a + b, c);
    lemma_nr_concat(a + b + c, d);
    lemma_nr_concat(a + b + c + d, e);
    lemma_nr_concat(a + b + c + d + e, f);
    lemma_held_none(primary, relations, a + b + c + d + e + f);
    lemma_held_concat(primary, relations, a + b + c + d + e + f, g);
    lemma_held_none(primary, relations, h);
    lemma_held_none(primary, relations, i);
    lemma_held_concat(primary, relations, a + b + c + d + e + f + g, h);
    lemma_held_concat(primary, relations, a + b + c + d + e + f + g + h, i);
}

/// The edge that says primary unit `unit` holds relation `r`.
pub open spec fn containment_edge(unit: StructuralUnit, relation: LinguisticRelation, r: int) -> EdgeView {
    EdgeView {
        source_id: unit.id@,
        target_id: relation_node_id(r),
        kind: SemanticGraphEdgeKind::UnitContainsRelation,
        label: Some(relation.relation_type@),
        weight: Some(GraphEvidence::RelationConfidence(r as usize)),
    }
}

proof fn lemma_first_holder_found(primary: Seq<StructuralUnit>, relation: LinguisticRelation, i: int, from: int)
    requires
        first_holder(primary, relation, i),
        0 <= from <= i,
    ensures
        relation_unit(primary, relation.subject@, relation.object@, from) == Some(primary[i].id@),
    decreases i - from,
{
    if from < i {
        assert(!holds_relation(primary[from], relation));
        lemma_first_holder_found(primary, relation, i, from + 1);
    }
}

proof fn lemma_relation_edge_present(
    primary: Seq<StructuralUnit>,
    canonicals: Seq<LinguisticCanonicalEntity>,
    relations: Seq<LinguisticRelation>,
    count: int,
    r: int,
    i: int,
)
    requires
        0 <= r < count <= relations.len(),
        first_holder(primary, relations[r], i),
    ensures
        relation_edges(primary, canonicals, relations, count).contains(containment_edge(primary[i], relations[r], r)),
    decreases count,
{
    let earlier = relation_edges(primary, canonicals, relations, count - 1);
    let whole = one_relation_edges(primary, canonicals, relations[count - 1], count - 1);
    assert(relation_edges(primary, canonicals, relations, count) == earlier + whole);
    if r < count - 1 {
        lemma_relation_edge_present(primary, canonicals, relations, count - 1, r, i);
        let k = choose|k: int| 0 <= k < earlier.len() && earlier[k] == containment_edge(primary[i], relations[r], r);
        assert((earlier + whole)[k] == earlier[k]);
    } else {
        lemma_first_holder_found(primary, relations[r], i, 0);
        assert(whole[0] == containment_edge(primary[i], relations[r], r));
        assert((earlier + whole)[earlier.len() as int] == whole[0]);
    }
}

/// Every relation that some primary unit holds (its lower-case subject and
/// object both in the unit's lower-case text) is attached to the first such
/// unit: the graph has the edge from that unit to the relation's node.
pub proof fn law_held_relations_are_attached(
    units: Seq<StructuralUnit>,
    primary_kind: SemanticUnitKind,
    neighbors: Seq<UnitPair>,
    concepts: Seq<ConceptSummary>,
    analysis: LinguisticAnalysis,
    r: int,
    i: int,
)
    requires
        0 <= r < analysis.relations@.len(),
        first_holder(primary_of(units, primary_kind), analysis.relations@[r], i),
    ensures
        graph_edges(units, primary_kind, neighbors, concepts, analysis).contains(
            containment_edge(primary_of(units, primary_kind)[i], analysis.relations@[r], r),
        ),
{
    let primary = primary_of(units, primary_kind);
    let relations = analysis.relations@;
    let a = neighbor_edges(neighbors);
    let b = membership_edges(concepts, concepts.len() as int);
    let c = entity_edges(primary, analysis.entities@, analysis.entities@.len() as int);
    let d = canonical_edges(analysis.entities@, analysis.canonical_entities@, analysis.canonical_entities@.len() as int);
    let e = coref_edges(primary, analysis.coreference@, analysis.coreference@.len() as int);
    let f = event_edges(primary, analysis.canonical_entities@, analysis.events@, analysis.events@.len() as int);
    let g = relation_edges(primary, analysis.canonical_entities@, relations, relations.len() as int);
    let h = discourse_edges(primary, analysis.discourse@, analysis.discourse@.len() as int);
    let t = topic_edges(primary, analysis.topics@, analysis.topics@.len() as int);
    let before = a + b + c + d + e + f;
    let edge = containment_edge(primary[i], relations[r], r);
    lemma_relation_edge_present(primary, analysis.canonical_entities@, relations, relations.len() as int, r, i);
    let k = choose|k: int| 0 <= k < g.len() && g[k] == edge;
    let all = before + g + h + t;
    assert(graph_edges(units, primary_kind, neighbors, concepts, analysis) == all);
    assert((before + g)[before.len() + k] == edge);
    assert(((before + g) + h)[before.len() + k] == edge);
    assert(all[before.len() + k] == edge);
}

} // verus!
