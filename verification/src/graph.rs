//! The linguistic semantic graph: the semantic map (units, neighbors,
//! concepts) joined to a linguistic analysis (entities, canonical entities,
//! coreference, events, relations, discourse, topics) by a deterministic
//! projection into typed nodes and edges.
//!
//! Confidences and weights are floating-point values of the inputs; a node
//! or edge names the input value it carries by a [`GraphEvidence`].

use vstd::prelude::*;
use vstd::string::StringExecFns;

use crate::chars::{decimal, decimal_text, same_text};
use crate::model::{SemanticGraphEdgeKind, SemanticGraphNodeKind, SemanticUnitKind};
use crate::span::TextSpan;
use crate::units::{text_option, StructuralUnit};

verus! {

/// The input value that a node's confidence or an edge's weight carries.
#[derive(Debug, Clone, Copy, PartialEq, Eq)]
pub enum GraphEvidence {
    /// The similarity of neighbor pair `i`.
    NeighborSimilarity(usize),
    /// The mean similarity of concept `i`.
    ConceptCohesion(usize),
    /// The confidence of entity `i`.
    EntityConfidence(usize),
    /// The confidence of mention `m` of canonical entity `c`.
    CanonicalMentionConfidence(usize, usize),
    /// The confidence of mention `m` of coreference cluster `c`.
    CoreferenceConfidence(usize, usize),
    /// The confidence of event `e`.
    EventConfidence(usize),
    /// The confidence of argument `a` of event `e`.
    ArgumentConfidence(usize, usize),
    /// The confidence of relation `r`.
    RelationConfidence(usize),
    /// The confidence of discourse segment `d`.
    DiscourseConfidence(usize),
    /// The score of topic `t`.
    TopicScore(usize),
}

/// One typed node of the graph.
#[derive(Debug, Clone, PartialEq, Eq)]
pub struct SemanticGraphNode {
    pub id: String,
    pub kind: SemanticGraphNodeKind,
    pub label: String,
    pub span: Option<TextSpan>,
    pub sequence_index: Option<usize>,
    pub confidence: Option<GraphEvidence>,
}

/// One typed edge of the graph.
#[derive(Debug, Clone, PartialEq, Eq)]
pub struct SemanticGraphEdge {
    pub source_id: String,
    pub target_id: String,
    pub kind: SemanticGraphEdgeKind,
    pub label: Option<String>,
    pub weight: Option<GraphEvidence>,
}

/// The graph: its nodes and its edges.
#[derive(Debug, Clone, PartialEq, Eq)]
pub struct SemanticLinguisticGraph {
    pub nodes: Vec<SemanticGraphNode>,
    pub edges: Vec<SemanticGraphEdge>,
}

/// A [`SemanticGraphNode`] with its strings taken as characters.
pub ghost struct NodeView {
    pub id: Seq<char>,
    pub kind: SemanticGraphNodeKind,
    pub label: Seq<char>,
    pub span: Option<TextSpan>,
    pub sequence_index: Option<usize>,
    pub confidence: Option<GraphEvidence>,
}

/// A [`SemanticGraphEdge`] with its strings taken as characters.
pub ghost struct EdgeView {
    pub source_id: Seq<char>,
    pub target_id: Seq<char>,
    pub kind: SemanticGraphEdgeKind,
    pub label: Option<Seq<char>>,
    pub weight: Option<GraphEvidence>,
}

impl View for SemanticGraphNode {
    type V = NodeView;

    open spec fn view(&self) -> NodeView {
        NodeView {
            id: self.id@,
            kind: self.kind,
            label: self.label@,
            span: self.span,
            sequence_index: self.sequence_index,
            confidence: self.confidence,
        }
    }
}

impl View for SemanticGraphEdge {
    type V = EdgeView;

    open spec fn view(&self) -> EdgeView {
        EdgeView {
            source_id: self.source_id@,
            target_id: self.target_id@,
            kind: self.kind,
            label: text_option(self.label),
            weight: self.weight,
        }
    }
}

/// The views of a list of nodes.
pub open spec fn node_views(nodes: Seq<SemanticGraphNode>) -> Seq<NodeView> {
    nodes.map_values(|node: SemanticGraphNode| node@)
}

/// The views of a list of edges.
pub open spec fn edge_views(edges: Seq<SemanticGraphEdge>) -> Seq<EdgeView> {
    edges.map_values(|edge: SemanticGraphEdge| edge@)
}

/// A pair of neighboring units of the semantic map.
#[derive(Debug, Clone, PartialEq, Eq)]
pub struct UnitPair {
    pub source_unit_id: String,
    pub target_unit_id: String,
}

/// A concept of the semantic map: its id, its members and the text of its
/// representative.
#[derive(Debug, Clone, PartialEq, Eq)]
pub struct ConceptSummary {
    pub id: String,
    pub member_unit_ids: Vec<String>,
    pub representative_text: String,
}

fn push_node(nodes: &mut Vec<SemanticGraphNode>, node: SemanticGraphNode)
    ensures
        node_views(final(nodes)@) == node_views(old(nodes)@).push(node@),
{
    let ghost before = nodes@;
    nodes.push(node);
    proof {
        assert(node_views(nodes@) =~= node_views(before).push(node@));
    }
}

fn push_edge(edges: &mut Vec<SemanticGraphEdge>, edge: SemanticGraphEdge)
    ensures
        edge_views(final(edges)@) == edge_views(old(edges)@).push(edge@),
{
    let ghost before = edges@;
    edges.push(edge);
    proof {
        assert(edge_views(edges@) =~= edge_views(before).push(edge@));
    }
}

/// `prefix` followed by `value`.
fn joined(prefix: &str, value: &str) -> (text: String)
    ensures
        text@ == prefix@ + value@,
{
    let mut text = String::from_str(prefix);
    text.append(value);
    text
}

/// `prefix` followed by `number` in decimal.
fn numbered(prefix: &str, number: usize) -> (text: String)
    ensures
        text@ == prefix@ + decimal_text(number as nat),
{
    let digits = decimal(number);
    joined(prefix, digits.as_str())
}

// ----- the primary units and their positions in the sentence order -----

/// The units of the primary kind, in order.
pub open spec fn primary_of(units: Seq<StructuralUnit>, kind: SemanticUnitKind) -> Seq<StructuralUnit>
    decreases units.len(),
{
    if units.len() == 0 {
        Seq::empty()
    } else if units.last().kind == kind {
        primary_of(units.drop_last(), kind).push(units.last())
    } else {
        primary_of(units.drop_last(), kind)
    }
}

/// The id of the primary unit at sequence index `sequence_index`; when
/// several have it, the last of them.
pub open spec fn unit_at(primary: Seq<StructuralUnit>, sequence_index: int) -> Option<Seq<char>>
    decreases primary.len(),
{
    if primary.len() == 0 {
        None
    } else if primary.last().sequence_index == sequence_index {
        Some(primary.last().id@)
    } else {
        unit_at(primary.drop_last(), sequence_index)
    }
}

fn same_kind(left: SemanticUnitKind, right: SemanticUnitKind) -> (same: bool)
    ensures
        same == (left == right),
{
    match (left, right) {
        (SemanticUnitKind::Sentence, SemanticUnitKind::Sentence) => true,
        (SemanticUnitKind::Paragraph, SemanticUnitKind::Paragraph) => true,
        (SemanticUnitKind::Document, SemanticUnitKind::Document) => true,
        (SemanticUnitKind::SpeakerTurn, SemanticUnitKind::SpeakerTurn) => true,
        _ => false,
    }
}

/// The positions of the primary units among all units.
fn primary_positions(units: &[StructuralUnit], kind: SemanticUnitKind) -> (positions: Vec<usize>)
    ensures
        positions@.len() == primary_of(units@, kind).len(),
        forall|i: int|
            0 <= i < positions@.len() ==> (#[trigger] positions@[i]) < units@.len() && units@[positions@[i] as int]
                == primary_of(units@, kind)[i],
{
    let mut positions: Vec<usize> = Vec::new();
    let mut index: usize = 0;
    while index < units.len()
        invariant
            index <= units@.len(),
            positions@.len() == primary_of(units@.take(index as int), kind).len(),
            forall|i: int|
                0 <= i < positions@.len() ==> (#[trigger] positions@[i]) < units@.len()
                    && units@[positions@[i] as int] == primary_of(units@.take(index as int), kind)[i],
        decreases units@.len() - index,
    {
        proof {
            assert(units@.take(index + 1).drop_last() =~= units@.take(index as int));
        }
        if same_kind(units[index].kind, kind) {
            positions.push(index);
        }
        index = index + 1;
    }
    proof {
        assert(units@.take(index as int) =~= units@);
    }
    positions
}

/// The primary unit at a sequence index, found through its position.
fn find_unit_at(units: &[StructuralUnit], positions: &Vec<usize>, primary: Ghost<Seq<StructuralUnit>>, sequence_index: usize) -> (found: Option<usize>)
    requires
        positions@.len() == primary@.len(),
        forall|i: int|
            0 <= i < positions@.len() ==> (#[trigger] positions@[i]) < units@.len() && units@[positions@[i] as int]
                == primary@[i],
    ensures
        match found {
            Some(k) => k < units@.len() && unit_at(primary@, sequence_index as int) == Some(units@[k as int].id@),
            None => unit_at(primary@, sequence_index as int) is None,
        },
{
    let mut found: Option<usize> = None;
    let mut index: usize = 0;
    while index < positions.len()
        invariant
            index <= positions@.len(),
            positions@.len() == primary@.len(),
            forall|i: int|
                0 <= i < positions@.len() ==> (#[trigger] positions@[i]) < units@.len()
                    && units@[positions@[i] as int] == primary@[i],
            match found {
                Some(k) => k < units@.len() && unit_at(primary@.take(index as int), sequence_index as int) == Some(
                    units@[k as int].id@,
                ),
                None => unit_at(primary@.take(index as int), sequence_index as int) is None,
            },
        decreases positions@.len() - index,
    {
        proof {
            assert(primary@.take(index + 1).drop_last() =~= primary@.take(index as int));
        }
        let position = positions[index];
        if units[position].sequence_index == sequence_index {
            found = Some(position);
        }
        index = index + 1;
    }
    proof {
        assert(primary@.take(index as int) =~= primary@);
    }
    found
}

// ----- the linguistic analysis, as the projection reads it -----

/// A named entity mention: its entity id, its text and span, the sentence it
/// occurs in, and its entity type as a label.
#[derive(Debug, Clone, PartialEq, Eq)]
pub struct LinguisticEntity {
    pub id: String,
    pub text: String,
    pub span: TextSpan,
    pub sentence_index: usize,
    pub entity_type: String,
}

/// A canonical entity: its name and aliases, its type as a label, and the
/// entity ids of its mentions.
#[derive(Debug, Clone, PartialEq, Eq)]
pub struct LinguisticCanonicalEntity {
    pub id: String,
    pub canonical_name: String,
    pub aliases: Vec<String>,
    pub entity_type: String,
    pub mention_ids: Vec<String>,
}

/// One mention of a coreference cluster: its text, its token range, its
/// sentence and its entity type as a label, if it has one.
#[derive(Debug, Clone, PartialEq, Eq)]
pub struct CoreferenceMention {
    pub text: String,
    pub token_start: usize,
    pub token_end: usize,
    pub sentence_index: usize,
    pub entity_type: Option<String>,
}

/// A coreference cluster.
#[derive(Debug, Clone, PartialEq, Eq)]
pub struct LinguisticCoreference {
    pub id: String,
    pub canonical_text: String,
    pub mentions: Vec<CoreferenceMention>,
}

/// One argument of an event: its text and its role.
#[derive(Debug, Clone, PartialEq, Eq)]
pub struct EventArgument {
    pub text: String,
    pub role: String,
}

/// An event: its predicate, its sentence, its relation type as a label and
/// its arguments.
#[derive(Debug, Clone, PartialEq, Eq)]
pub struct LinguisticEvent {
    pub predicate: String,
    pub sentence_index: usize,
    pub relation_type: String,
    pub arguments: Vec<EventArgument>,
}

/// A relation between a subject and an object.
#[derive(Debug, Clone, PartialEq, Eq)]
pub struct LinguisticRelation {
    pub subject: String,
    pub relation: String,
    pub object: String,
    pub relation_type: String,
}

/// A discourse segment over the sentences `sentence_start..sentence_end`.
#[derive(Debug, Clone, PartialEq, Eq)]
pub struct DiscourseSegment {
    pub index: usize,
    pub text: String,
    pub sentence_start: usize,
    pub sentence_end: usize,
    pub kind: String,
    pub relation_to_previous: Option<String>,
}

/// A topic: its label, its sentences and its terms.
#[derive(Debug, Clone, PartialEq, Eq)]
pub struct TopicCluster {
    pub id: String,
    pub label: String,
    pub sentence_indices: Vec<usize>,
    pub terms: Vec<String>,
}

/// What the projection reads of a linguistic analysis.
#[derive(Debug, Clone, PartialEq, Eq)]
pub struct LinguisticAnalysis {
    /// The span of each token.
    pub tokens: Vec<TextSpan>,
    pub entities: Vec<LinguisticEntity>,
    pub canonical_entities: Vec<LinguisticCanonicalEntity>,
    pub coreference: Vec<LinguisticCoreference>,
    pub events: Vec<LinguisticEvent>,
    pub relations: Vec<LinguisticRelation>,
    pub discourse: Vec<DiscourseSegment>,
    pub topics: Vec<TopicCluster>,
}

// ----- units, neighbors and concepts -----

/// The node of a primary unit.
pub open spec fn unit_node(unit: StructuralUnit) -> NodeView {
    NodeView {
        id: unit.id@,
        kind: SemanticGraphNodeKind::Unit,
        label: unit.text@,
        span: Some(unit.span),
        sequence_index: Some(unit.sequence_index),
        confidence: None,
    }
}

/// The nodes of the primary units.
pub open spec fn unit_nodes(primary: Seq<StructuralUnit>) -> Seq<NodeView> {
    Seq::new(primary.len(), |i: int| unit_node(primary[i]))
}

/// The edges between neighboring units.
pub open spec fn neighbor_edges(neighbors: Seq<UnitPair>) -> Seq<EdgeView> {
    Seq::new(
        neighbors.len(),
        |i: int|
            EdgeView {
                source_id: neighbors[i].source_unit_id@,
                target_id: neighbors[i].target_unit_id@,
                kind: SemanticGraphEdgeKind::SemanticNeighbor,
                label: None,
                weight: Some(GraphEvidence::NeighborSimilarity(i as usize)),
            },
    )
}

/// The node id of a concept.
pub open spec fn concept_id(concept: ConceptSummary) -> Seq<char> {
    "concept:"@ + concept.id@
}

/// The nodes of the concepts.
pub open spec fn concept_nodes(concepts: Seq<ConceptSummary>) -> Seq<NodeView> {
    Seq::new(
        concepts.len(),
        |i: int|
            NodeView {
                id: concept_id(concepts[i]),
                kind: SemanticGraphNodeKind::Concept,
                label: concepts[i].representative_text@,
                span: None,
                sequence_index: None,
                confidence: Some(GraphEvidence::ConceptCohesion(i as usize)),
            },
    )
}

/// The membership edges of one concept.
pub open spec fn concept_membership(concept: ConceptSummary) -> Seq<EdgeView> {
    concept.member_unit_ids@.map_values(
        |member: String|
            EdgeView {
                source_id: member@,
                target_id: concept_id(concept),
                kind: SemanticGraphEdgeKind::ConceptMembership,
                label: None,
                weight: None,
            },
    )
}

/// The membership edges of the first `count` concepts.
pub open spec fn membership_edges(concepts: Seq<ConceptSummary>, count: int) -> Seq<EdgeView>
    decreases count,
{
    if count <= 0 {
        Seq::empty()
    } else {
        membership_edges(concepts, count - 1) + concept_membership(concepts[count - 1])
    }
}

fn add_unit_nodes(nodes: &mut Vec<SemanticGraphNode>, units: &[StructuralUnit], positions: &Vec<usize>, primary: Ghost<Seq<StructuralUnit>>)
    requires
        positions@.len() == primary@.len(),
        forall|i: int|
            0 <= i < positions@.len() ==> (#[trigger] positions@[i]) < units@.len() && units@[positions@[i] as int]
                == primary@[i],
    ensures
        node_views(final(nodes)@) == node_views(old(nodes)@) + unit_nodes(primary@),
{
    let ghost base = node_views(nodes@);
    let mut index: usize = 0;
    while index < positions.len()
        invariant
            index <= positions@.len(),
            positions@.len() == primary@.len(),
            forall|i: int|
                0 <= i < positions@.len() ==> (#[trigger] positions@[i]) < units@.len()
                    && units@[positions@[i] as int] == primary@[i],
            node_views(nodes@) == base + unit_nodes(primary@.take(index as int)),
        decreases positions@.len() - index,
    {
        let unit = &units[positions[index]];
        push_node(
            nodes,
            SemanticGraphNode {
                id: unit.id.clone(),
                kind: SemanticGraphNodeKind::Unit,
                label: unit.text.clone(),
                span: Some(unit.span),
                sequence_index: Some(unit.sequence_index),
                confidence: None,
            },
        );
        proof {
            assert(unit_nodes(primary@.take(index + 1)) =~= unit_nodes(primary@.take(index as int)).push(
                unit_node(primary@[index as int]),
            ));
        }
        index = index + 1;
    }
    proof {
        assert(primary@.take(index as int) =~= primary@);
    }
}

fn add_neighbor_edges(edges: &mut Vec<SemanticGraphEdge>, neighbors: &[UnitPair])
    ensures
        edge_views(final(edges)@) == edge_views(old(edges)@) + neighbor_edges(neighbors@),
{
    let ghost base = edge_views(edges@);
    let mut index: usize = 0;
    while index < neighbors.len()
        invariant
            index <= neighbors@.len(),
            edge_views(edges@) == base + neighbor_edges(neighbors@.take(index as int)),
        decreases neighbors@.len() - index,
    {
        let pair = &neighbors[index];
        let edge = SemanticGraphEdge {
            source_id: pair.source_unit_id.clone(),
            target_id: pair.target_unit_id.clone(),
            kind: SemanticGraphEdgeKind::SemanticNeighbor,
            label: None,
            weight: Some(GraphEvidence::NeighborSimilarity(index)),
        };
        push_edge(edges, edge);
        proof {
            assert(neighbor_edges(neighbors@.take(index + 1)) =~= neighbor_edges(neighbors@.take(index as int)).push(
                edge@,
            ));
        }
        index = index + 1;
    }
    proof {
        assert(neighbors@.take(index as int) =~= neighbors@);
    }
}

fn add_concept_nodes(nodes: &mut Vec<SemanticGraphNode>, concepts: &[ConceptSummary])
    ensures
        node_views(final(nodes)@) == node_views(old(nodes)@) + concept_nodes(concepts@),
{
    let ghost base = node_views(nodes@);
    let mut index: usize = 0;
    while index < concepts.len()
        invariant
            index <= concepts@.len(),
            node_views(nodes@) == base + concept_nodes(concepts@.take(index as int)),
        decreases concepts@.len() - index,
    {
        let concept = &concepts[index];
        let node = SemanticGraphNode {
            id: joined("concept:", concept.id.as_str()),
            kind: SemanticGraphNodeKind::Concept,
            label: concept.representative_text.clone(),
            span: None,
            sequence_index: None,
            confidence: Some(GraphEvidence::ConceptCohesion(index)),
        };
        push_node(nodes, node);
        proof {
            assert(concept_nodes(concepts@.take(index + 1)) =~= concept_nodes(concepts@.take(index as int)).push(
                node@,
            ));
        }
        index = index + 1;
    }
    proof {
        assert(concepts@.take(index as int) =~= concepts@);
    }
}

fn add_concept_membership(edges: &mut Vec<SemanticGraphEdge>, concept: &ConceptSummary)
    ensures
        edge_views(final(edges)@) == edge_views(old(edges)@) + concept_membership(*concept),
{
    let ghost base = edge_views(edges@);
    let target = joined("concept:", concept.id.as_str());
    let mut index: usize = 0;
    while index < concept.member_unit_ids.len()
        invariant
            index <= concept.member_unit_ids@.len(),
            target@ == concept_id(*concept),
            edge_views(edges@) == base + concept_membership(*concept).take(index as int),
        decreases concept.member_unit_ids@.len() - index,
    {
        let edge = SemanticGraphEdge {
            source_id: concept.member_unit_ids[index].clone(),
            target_id: target.clone(),
            kind: SemanticGraphEdgeKind::ConceptMembership,
            label: None,
            weight: None,
        };
        push_edge(edges, edge);
        proof {
            assert(concept_membership(*concept).take(index + 1) =~= concept_membership(*concept).take(
                index as int,
            ).push(edge@));
        }
        index = index + 1;
    }
    proof {
        assert(concept_membership(*concept).take(index as int) =~= concept_membership(*concept));
    }
}

fn add_membership_edges(edges: &mut Vec<SemanticGraphEdge>, concepts: &[ConceptSummary])
    ensures
        edge_views(final(edges)@) == edge_views(old(edges)@) + membership_edges(concepts@, concepts@.len() as int),
{
    let ghost base = edge_views(edges@);
    let mut index: usize = 0;
    while index < concepts.len()
        invariant
            index <= concepts@.len(),
            edge_views(edges@) == base + membership_edges(concepts@, index as int),
        decreases concepts@.len() - index,
    {
        add_concept_membership(edges, &concepts[index]);
        proof {
            assert(base + membership_edges(concepts@, index + 1) =~= base + membership_edges(concepts@, index as int)
                + concept_membership(concepts@[index as int]));
        }
        index = index + 1;
    }
}

// ----- entities and canonical entities -----

/// What `str::to_lowercase` returns for a text.
pub uninterp spec fn lowercase(text: Seq<char>) -> Seq<char>;

/// The text in lower case, as `str::to_lowercase` gives it (full Unicode
/// case mapping). Nothing is stated of the result beyond that it is the
/// lower-case form of the argument, named [`lowercase`].
#[verifier::external_body]
fn to_lowercase(text: &str) -> (lower: String)
    ensures
        lower@ == lowercase(text@),
{
    text.to_lowercase()
}

/// The node id of the mention of entity `entity_id`.
pub open spec fn mention_node_id(entity_id: Seq<char>) -> Seq<char> {
    "mention:"@ + entity_id
}

/// The nodes of the entity mentions.
pub open spec fn entity_nodes(entities: Seq<LinguisticEntity>) -> Seq<NodeView> {
    Seq::new(
        entities.len(),
        |i: int|
            NodeView {
                id: mention_node_id(entities[i].id@),
                kind: SemanticGraphNodeKind::EntityMention,
                label: entities[i].text@,
                span: Some(entities[i].span),
                sequence_index: Some(entities[i].sentence_index),
                confidence: Some(GraphEvidence::EntityConfidence(i as usize)),
            },
    )
}

/// The edges from the units to the first `count` entity mentions they hold.
pub open spec fn entity_edges(primary: Seq<StructuralUnit>, entities: Seq<LinguisticEntity>, count: int) -> Seq<
    EdgeView,
>
    decreases count,
{
    if count <= 0 {
        Seq::empty()
    } else {
        let earlier = entity_edges(primary, entities, count - 1);
        let entity = entities[count - 1];
        match unit_at(primary, entity.sentence_index as int) {
            Some(unit) => earlier.push(
                EdgeView {
                    source_id: unit,
                    target_id: mention_node_id(entity.id@),
                    kind: SemanticGraphEdgeKind::UnitContainsMention,
                    label: Some(entity.entity_type@),
                    weight: Some(GraphEvidence::EntityConfidence((count - 1) as usize)),
                },
            ),
            None => earlier,
        }
    }
}

/// The node id of a canonical entity.
pub open spec fn canonical_node_id(canonical: LinguisticCanonicalEntity) -> Seq<char> {
    "canonical:"@ + canonical.id@
}

/// The nodes of the canonical entities.
pub open spec fn canonical_nodes(canonicals: Seq<LinguisticCanonicalEntity>) -> Seq<NodeView> {
    Seq::new(
        canonicals.len(),
        |i: int|
            NodeView {
                id: canonical_node_id(canonicals[i]),
                kind: SemanticGraphNodeKind::CanonicalEntity,
                label: canonicals[i].canonical_name@,
                span: None,
                sequence_index: None,
                confidence: None,
            },
    )
}

/// Whether some entity has the id `id`.
pub open spec fn has_entity(entities: Seq<LinguisticEntity>, id: Seq<char>) -> bool {
    exists|i: int| 0 <= i < entities.len() && #[trigger] entities[i].id@ == id
}

/// The edges from the first `count` mentions of canonical entity `index`
/// that are entity mentions to the canonical entity.
pub open spec fn canonical_mention_edges(
    entities: Seq<LinguisticEntity>,
    canonical: LinguisticCanonicalEntity,
    index: int,
    count: int,
) -> Seq<EdgeView>
    decreases count,
{
    if count <= 0 {
        Seq::empty()
    } else {
        let earlier = canonical_mention_edges(entities, canonical, index, count - 1);
        let mention = canonical.mention_ids@[count - 1]@;
        if has_entity(entities, mention) {
            earlier.push(
                EdgeView {
                    source_id: mention_node_id(mention),
                    target_id: canonical_node_id(canonical),
                    kind: SemanticGraphEdgeKind::MentionCanonical,
                    label: Some(canonical.entity_type@),
                    weight: Some(GraphEvidence::CanonicalMentionConfidence(index as usize, (count - 1) as usize)),
                },
            )
        } else {
            earlier
        }
    }
}

/// The mention edges of the first `count` canonical entities.
pub open spec fn canonical_edges(
    entities: Seq<LinguisticEntity>,
    canonicals: Seq<LinguisticCanonicalEntity>,
    count: int,
) -> Seq<EdgeView>
    decreases count,
{
    if count <= 0 {
        Seq::empty()
    } else {
        let canonical = canonicals[count - 1];
        canonical_edges(entities, canonicals, count - 1) + canonical_mention_edges(
            entities,
            canonical,
            count - 1,
            canonical.mention_ids@.len() as int,
        )
    }
}

/// Whether a canonical entity answers to the lower-case `name`: its name or
/// one of its aliases, in lower case, is `name`.
pub open spec fn answers_to(canonical: LinguisticCanonicalEntity, name: Seq<char>) -> bool {
    lowercase(canonical.canonical_name@) == name || exists|k: int|
        0 <= k < canonical.aliases@.len() && lowercase(#[trigger] canonical.aliases@[k]@) == name
}

/// The node id of the canonical entity that answers to the lower-case
/// `name`; when several do, the last of them.
pub open spec fn canonical_for(canonicals: Seq<LinguisticCanonicalEntity>, name: Seq<char>) -> Option<Seq<char>>
    decreases canonicals.len(),
{
    if canonicals.len() == 0 {
        None
    } else if answers_to(canonicals.last(), name) {
        Some(canonical_node_id(canonicals.last()))
    } else {
        canonical_for(canonicals.drop_last(), name)
    }
}

fn answers_to_exec(canonical: &LinguisticCanonicalEntity, name: &str) -> (answers: bool)
    ensures
        answers == answers_to(*canonical, name@),
{
    let own = to_lowercase(canonical.canonical_name.as_str());
    if same_text(own.as_str(), name) {
        return true;
    }
    let mut index: usize = 0;
    while index < canonical.aliases.len()
        invariant
            index <= canonical.aliases@.len(),
            lowercase(canonical.canonical_name@) != name@,
            forall|k: int| 0 <= k < index ==> lowercase(#[trigger] canonical.aliases@[k]@) != name@,
        decreases canonical.aliases@.len() - index,
    {
        let alias = to_lowercase(canonical.aliases[index].as_str());
        if same_text(alias.as_str(), name) {
            return true;
        }
        index = index + 1;
    }
    false
}

/// The canonical entity that answers to the lower-case `name`, if any.
fn find_canonical(canonicals: &[LinguisticCanonicalEntity], name: &str) -> (found: Option<String>)
    ensures
        match found {
            Some(id) => canonical_for(canonicals@, name@) == Some(id@),
            None => canonical_for(canonicals@, name@) is None,
        },
{
    let mut index: usize = canonicals.len();
    proof {
        assert(canonicals@.take(index as int) =~= canonicals@);
    }
    while index > 0
        invariant
            index <= canonicals@.len(),
            canonical_for(canonicals@, name@) == canonical_for(canonicals@.take(index as int), name@),
        decreases index,
    {
        proof {
            assert(canonicals@.take(index as int).drop_last() =~= canonicals@.take(index - 1));
        }
        let canonical = &canonicals[index - 1];
        if answers_to_exec(canonical, name) {
            return Some(joined("canonical:", canonical.id.as_str()));
        }
        index = index - 1;
    }
    None
}

fn entity_listed(entities: &[LinguisticEntity], id: &str) -> (listed: bool)
    ensures
        listed == has_entity(entities@, id@),
{
    let mut index: usize = 0;
    while index < entities.len()
        invariant
            index <= entities@.len(),
            forall|i: int| 0 <= i < index ==> #[trigger] entities@[i].id@ != id@,
        decreases entities@.len() - index,
    {
        if same_text(entities[index].id.as_str(), id) {
            return true;
        }
        index = index + 1;
    }
    false
}

fn add_entities(
    nodes: &mut Vec<SemanticGraphNode>,
    edges: &mut Vec<SemanticGraphEdge>,
    units: &[StructuralUnit],
    positions: &Vec<usize>,
    primary: Ghost<Seq<StructuralUnit>>,
    entities: &[LinguisticEntity],
)
    requires
        positions@.len() == primary@.len(),
        forall|i: int|
            0 <= i < positions@.len() ==> (#[trigger] positions@[i]) < units@.len() && units@[positions@[i] as int]
                == primary@[i],
    ensures
        node_views(final(nodes)@) == node_views(old(nodes)@) + entity_nodes(entities@),
        edge_views(final(edges)@) == edge_views(old(edges)@) + entity_edges(primary@, entities@, entities@.len() as int),
{
    let ghost node_base = node_views(nodes@);
    let ghost edge_base = edge_views(edges@);
    let mut index: usize = 0;
    while index < entities.len()
        invariant
            index <= entities@.len(),
            positions@.len() == primary@.len(),
            forall|i: int|
                0 <= i < positions@.len() ==> (#[trigger] positions@[i]) < units@.len()
                    && units@[positions@[i] as int] == primary@[i],
            node_views(nodes@) == node_base + entity_nodes(entities@.take(index as int)),
            edge_views(edges@) == edge_base + entity_edges(primary@, entities@, index as int),
        decreases entities@.len() - index,
    {
        let entity = &entities[index];
        let node_id = joined("mention:", entity.id.as_str());
        let node = SemanticGraphNode {
            id: node_id.clone(),
            kind: SemanticGraphNodeKind::EntityMention,
            label: entity.text.clone(),
            span: Some(entity.span),
            sequence_index: Some(entity.sentence_index),
            confidence: Some(GraphEvidence::EntityConfidence(index)),
        };
        push_node(nodes, node);
        proof {
            assert(entity_nodes(entities@.take(index + 1)) =~= entity_nodes(entities@.take(index as int)).push(
                node@,
            ));
        }
        match find_unit_at(units, positions, primary, entity.sentence_index) {
            Some(k) => {
                let edge = SemanticGraphEdge {
                    source_id: units[k].id.clone(),
                    target_id: node_id,
                    kind: SemanticGraphEdgeKind::UnitContainsMention,
                    label: Some(entity.entity_type.clone()),
                    weight: Some(GraphEvidence::EntityConfidence(index)),
                };
                push_edge(edges, edge);
                proof {
                    assert(edge_base + entity_edges(primary@, entities@, index + 1) =~= edge_base + entity_edges(
                        primary@,
                        entities@,
                        index as int,
                    ).push(edge@));
                }
            },
            None => {},
        }
        index = index + 1;
    }
    proof {
        assert(entities@.take(index as int) =~= entities@);
    }
}

fn add_canonical_mentions(
    edges: &mut Vec<SemanticGraphEdge>,
    entities: &[LinguisticEntity],
    canonical: &LinguisticCanonicalEntity,
    index: usize,
)
    ensures
        edge_views(final(edges)@) == edge_views(old(edges)@) + canonical_mention_edges(
            entities@,
            *canonical,
            index as int,
            canonical.mention_ids@.len() as int,
        ),
{
    let ghost base = edge_views(edges@);
    let target = joined("canonical:", canonical.id.as_str());
    let mut m: usize = 0;
    while m < canonical.mention_ids.len()
        invariant
            m <= canonical.mention_ids@.len(),
            target@ == canonical_node_id(*canonical),
            edge_views(edges@) == base + canonical_mention_edges(entities@, *canonical, index as int, m as int),
        decreases canonical.mention_ids@.len() - m,
    {
        let mention = canonical.mention_ids[m].as_str();
        if entity_listed(entities, mention) {
            let edge = SemanticGraphEdge {
                source_id: joined("mention:", mention),
                target_id: target.clone(),
                kind: SemanticGraphEdgeKind::MentionCanonical,
                label: Some(canonical.entity_type.clone()),
                weight: Some(GraphEvidence::CanonicalMentionConfidence(index, m)),
            };
            push_edge(edges, edge);
            proof {
                assert(base + canonical_mention_edges(entities@, *canonical, index as int, m + 1) =~= base
                    + canonical_mention_edges(entities@, *canonical, index as int, m as int).push(edge@));
            }
        }
        m = m + 1;
    }
}

fn add_canonicals(
    nodes: &mut Vec<SemanticGraphNode>,
    edges: &mut Vec<SemanticGraphEdge>,
    entities: &[LinguisticEntity],
    canonicals: &[LinguisticCanonicalEntity],
)
    ensures
        node_views(final(nodes)@) == node_views(old(nodes)@) + canonical_nodes(canonicals@),
        edge_views(final(edges)@) == edge_views(old(edges)@) + canonical_edges(
            entities@,
            canonicals@,
            canonicals@.len() as int,
        ),
{
    let ghost node_base = node_views(nodes@);
    let ghost edge_base = edge_views(edges@);
    let mut index: usize = 0;
    while index < canonicals.len()
        invariant
            index <= canonicals@.len(),
            node_views(nodes@) == node_base + canonical_nodes(canonicals@.take(index as int)),
            edge_views(edges@) == edge_base + canonical_edges(entities@, canonicals@, index as int),
        decreases canonicals@.len() - index,
    {
        let canonical = &canonicals[index];
        let node = SemanticGraphNode {
            id: joined("canonical:", canonical.id.as_str()),
            kind: SemanticGraphNodeKind::CanonicalEntity,
            label: canonical.canonical_name.clone(),
            span: None,
            sequence_index: None,
            confidence: None,
        };
        push_node(nodes, node);
        proof {
            assert(canonical_nodes(canonicals@.take(index + 1)) =~= canonical_nodes(canonicals@.take(index as int)).push(
                node@,
            ));
        }
        add_canonical_mentions(edges, entities, canonical, index);
        proof {
            assert(edge_base + canonical_edges(entities@, canonicals@, index + 1) =~= edge_base + canonical_edges(
                entities@,
                canonicals@,
                index as int,
            ) + canonical_mention_edges(
                entities@,
                canonicals@[index as int],
                index as int,
                canonicals@[index as int].mention_ids@.len() as int,
            ));
        }
        index = index + 1;
    }
    proof {
        assert(canonicals@.take(index as int) =~= canonicals@);
    }
}

// ----- coreference -----

/// The span from the start of token `start` to the end of token `end - 1`,
/// when the range is not empty and both tokens exist.
pub open spec fn token_range_span(tokens: Seq<TextSpan>, start: usize, end: usize) -> Option<TextSpan> {
    if start >= end || start >= tokens.len() || end - 1 >= tokens.len() {
        None
    } else {
        Some(
            TextSpan {
                byte_start: tokens[start as int].byte_start,
                byte_end: tokens[end - 1].byte_end,
                char_start: tokens[start as int].char_start,
                char_end: tokens[end - 1].char_end,
            },
        )
    }
}

fn token_range_span_exec(tokens: &Vec<TextSpan>, start: usize, end: usize) -> (span: Option<TextSpan>)
    ensures
        span == token_range_span(tokens@, start, end),
{
    if start >= end || start >= tokens.len() || end - 1 >= tokens.len() {
        return None;
    }
    let first = tokens[start];
    let last = tokens[end - 1];
    Some(
        TextSpan {
            byte_start: first.byte_start,
            byte_end: last.byte_end,
            char_start: first.char_start,
            char_end: last.char_end,
        },
    )
}

/// The node id of a coreference cluster.
pub open spec fn coref_node_id(cluster: LinguisticCoreference) -> Seq<char> {
    "coref:"@ + cluster.id@
}

/// The node id of mention `m` of a coreference cluster.
pub open spec fn coref_mention_id(cluster: LinguisticCoreference, m: int) -> Seq<char> {
    coref_node_id(cluster) + ":mention:"@ + decimal_text(m as nat)
}

/// The nodes of the first `count` mentions of coreference cluster `index`.
pub open spec fn coref_mention_nodes(
    tokens: Seq<TextSpan>,
    cluster: LinguisticCoreference,
    index: int,
    count: int,
) -> Seq<NodeView>
    decreases count,
{
    if count <= 0 {
        Seq::empty()
    } else {
        let mention = cluster.mentions@[count - 1];
        coref_mention_nodes(tokens, cluster, index, count - 1).push(
            NodeView {
                id: coref_mention_id(cluster, count - 1),
                kind: SemanticGraphNodeKind::CoreferenceMention,
                label: mention.text@,
                span: token_range_span(tokens, mention.token_start, mention.token_end),
                sequence_index: Some(mention.sentence_index),
                confidence: Some(GraphEvidence::CoreferenceConfidence(index as usize, (count - 1) as usize)),
            },
        )
    }
}

/// The nodes of the first `count` coreference clusters: each cluster, then
/// its mentions.
pub open spec fn coref_nodes(tokens: Seq<TextSpan>, clusters: Seq<LinguisticCoreference>, count: int) -> Seq<
    NodeView,
>
    decreases count,
{
    if count <= 0 {
        Seq::empty()
    } else {
        let cluster = clusters[count - 1];
        coref_nodes(tokens, clusters, count - 1) + seq![
            NodeView {
                id: coref_node_id(cluster),
                kind: SemanticGraphNodeKind::CoreferenceCluster,
                label: cluster.canonical_text@,
                span: None,
                sequence_index: None,
                confidence: None,
            },
        ] + coref_mention_nodes(tokens, cluster, count - 1, cluster.mentions@.len() as int)
    }
}

/// The edges of the first `count` mentions of coreference cluster `index`:
/// each mention to its cluster, then the unit that holds the mention to it.
pub open spec fn coref_mention_edges(
    primary: Seq<StructuralUnit>,
    cluster: LinguisticCoreference,
    index: int,
    count: int,
) -> Seq<EdgeView>
    decreases count,
{
    if count <= 0 {
        Seq::empty()
    } else {
        let mention = cluster.mentions@[count - 1];
        let weight = Some(GraphEvidence::CoreferenceConfidence(index as usize, (count - 1) as usize));
        let earlier = coref_mention_edges(primary, cluster, index, count - 1).push(
            EdgeView {
                source_id: coref_mention_id(cluster, count - 1),
                target_id: coref_node_id(cluster),
                kind: SemanticGraphEdgeKind::MentionCoreference,
                label: text_option(mention.entity_type),
                weight,
            },
        );
        match unit_at(primary, mention.sentence_index as int) {
            Some(unit) => earlier.push(
                EdgeView {
                    source_id: unit,
                    target_id: coref_mention_id(cluster, count - 1),
                    kind: SemanticGraphEdgeKind::UnitContainsMention,
                    label: Some("coreference"@),
                    weight,
                },
            ),
            None => earlier,
        }
    }
}

/// The mention edges of the first `count` coreference clusters.
pub open spec fn coref_edges(primary: Seq<StructuralUnit>, clusters: Seq<LinguisticCoreference>, count: int) -> Seq<
    EdgeView,
>
    decreases count,
{
    if count <= 0 {
        Seq::empty()
    } else {
        let cluster = clusters[count - 1];
        coref_edges(primary, clusters, count - 1) + coref_mention_edges(
            primary,
            cluster,
            count - 1,
            cluster.mentions@.len() as int,
        )
    }
}

fn copy_text_option(value: &Option<String>) -> (copy: Option<String>)
    ensures
        text_option(copy) == text_option(*value),
{
    match value {
        Some(text) => Some(text.clone()),
        None => None,
    }
}

fn add_coref_mentions(
    nodes: &mut Vec<SemanticGraphNode>,
    edges: &mut Vec<SemanticGraphEdge>,
    units: &[StructuralUnit],
    positions: &Vec<usize>,
    primary: Ghost<Seq<StructuralUnit>>,
    tokens: &Vec<TextSpan>,
    cluster: &LinguisticCoreference,
    index: usize,
)
    requires
        positions@.len() == primary@.len(),
        forall|i: int|
            0 <= i < positions@.len() ==> (#[trigger] positions@[i]) < units@.len() && units@[positions@[i] as int]
                == primary@[i],
    ensures
        node_views(final(nodes)@) == node_views(old(nodes)@) + coref_mention_nodes(
            tokens@,
            *cluster,
            index as int,
            cluster.mentions@.len() as int,
        ),
        edge_views(final(edges)@) == edge_views(old(edges)@) + coref_mention_edges(
            primary@,
            *cluster,
            index as int,
            cluster.mentions@.len() as int,
        ),
{
    let ghost node_base = node_views(nodes@);
    let ghost edge_base = edge_views(edges@);
    let cluster_id = joined("coref:", cluster.id.as_str());
    let mut m: usize = 0;
    while m < cluster.mentions.len()
        invariant
            m <= cluster.mentions@.len(),
            positions@.len() == primary@.len(),
            forall|i: int|
                0 <= i < positions@.len() ==> (#[trigger] positions@[i]) < units@.len()
                    && units@[positions@[i] as int] == primary@[i],
            cluster_id@ == coref_node_id(*cluster),
            node_views(nodes@) == node_base + coref_mention_nodes(tokens@, *cluster, index as int, m as int),
            edge_views(edges@) == edge_base + coref_mention_edges(primary@, *cluster, index as int, m as int),
        decreases cluster.mentions@.len() - m,
    {
        let mention = &cluster.mentions[m];
        let mut mention_id = joined(cluster_id.as_str(), ":mention:");
        let digits = decimal(m);
        mention_id.append(digits.as_str());
        let node = SemanticGraphNode {
            id: mention_id.clone(),
            kind: SemanticGraphNodeKind::CoreferenceMention,
            label: mention.text.clone(),
            span: token_range_span_exec(tokens, mention.token_start, mention.token_end),
            sequence_index: Some(mention.sentence_index),
            confidence: Some(GraphEvidence::CoreferenceConfidence(index, m)),
        };
        push_node(nodes, node);
        let edge = SemanticGraphEdge {
            source_id: mention_id.clone(),
            target_id: cluster_id.clone(),
            kind: SemanticGraphEdgeKind::MentionCoreference,
            label: copy_text_option(&mention.entity_type),
            weight: Some(GraphEvidence::CoreferenceConfidence(index, m)),
        };
        push_edge(edges, edge);
        proof {
            assert(node_base + coref_mention_nodes(tokens@, *cluster, index as int, m + 1) =~= node_base
                + coref_mention_nodes(tokens@, *cluster, index as int, m as int).push(node@));
        }
        match find_unit_at(units, positions, primary, mention.sentence_index) {
            Some(k) => {
                let contains = SemanticGraphEdge {
                    source_id: units[k].id.clone(),
                    target_id: mention_id,
                    kind: SemanticGraphEdgeKind::UnitContainsMention,
                    label: Some(String::from_str("coreference")),
                    weight: Some(GraphEvidence::CoreferenceConfidence(index, m)),
                };
                push_edge(edges, contains);
                proof {
                    assert(edge_base + coref_mention_edges(primary@, *cluster, index as int, m + 1) =~= edge_base
                        + coref_mention_edges(primary@, *cluster, index as int, m as int).push(edge@).push(
                        contains@,
                    ));
                }
            },
            None => {
                proof {
                    assert(edge_base + coref_mention_edges(primary@, *cluster, index as int, m + 1) =~= edge_base
                        + coref_mention_edges(primary@, *cluster, index as int, m as int).push(edge@));
                }
            },
        }
        m = m + 1;
    }
}

fn add_coreference(
    nodes: &mut Vec<SemanticGraphNode>,
    edges: &mut Vec<SemanticGraphEdge>,
    units: &[StructuralUnit],
    positions: &Vec<usize>,
    primary: Ghost<Seq<StructuralUnit>>,
    tokens: &Vec<TextSpan>,
    clusters: &[LinguisticCoreference],
)
    requires
        positions@.len() == primary@.len(),
        forall|i: int|
            0 <= i < positions@.len() ==> (#[trigger] positions@[i]) < units@.len() && units@[positions@[i] as int]
                == primary@[i],
    ensures
        node_views(final(nodes)@) == node_views(old(nodes)@) + coref_nodes(tokens@, clusters@, clusters@.len() as int),
        edge_views(final(edges)@) == edge_views(old(edges)@) + coref_edges(primary@, clusters@, clusters@.len() as int),
{
    let ghost node_base = node_views(nodes@);
    let ghost edge_base = edge_views(edges@);
    let mut index: usize = 0;
    while index < clusters.len()
        invariant
            index <= clusters@.len(),
            positions@.len() == primary@.len(),
            forall|i: int|
                0 <= i < positions@.len() ==> (#[trigger] positions@[i]) < units@.len()
                    && units@[positions@[i] as int] == primary@[i],
            node_views(nodes@) == node_base + coref_nodes(tokens@, clusters@, index as int),
            edge_views(edges@) == edge_base + coref_edges(primary@, clusters@, index as int),
        decreases clusters@.len() - index,
    {
        let cluster = &clusters[index];
        let node = SemanticGraphNode {
            id: joined("coref:", cluster.id.as_str()),
            kind: SemanticGraphNodeKind::CoreferenceCluster,
            label: cluster.canonical_text.clone(),
            span: None,
            sequence_index: None,
            confidence: None,
        };
        push_node(nodes, node);
        add_coref_mentions(nodes, edges, units, positions, primary, tokens, cluster, index);
        proof {
            assert(node_base + coref_nodes(tokens@, clusters@, index + 1) =~= node_base + coref_nodes(
                tokens@,
                clusters@,
                index as int,
            ) + seq![node@] + coref_mention_nodes(
                tokens@,
                clusters@[index as int],
                index as int,
                clusters@[index as int].mentions@.len() as int,
            ));
            assert(edge_base + coref_edges(primary@, clusters@, index + 1) =~= edge_base + coref_edges(
                primary@,
                clusters@,
                index as int,
            ) + coref_mention_edges(
                primary@,
                clusters@[index as int],
                index as int,
                clusters@[index as int].mentions@.len() as int,
            ));
        }
        index = index + 1;
    }
}

// ----- events -----

/// The node id of event `e`.
pub open spec fn event_node_id(e: int) -> Seq<char> {
    "event:"@ + decimal_text(e as nat)
}

/// The node id of argument `a` of event `e`.
pub open spec fn argument_node_id(e: int, a: int) -> Seq<char> {
    event_node_id(e) + ":argument:"@ + decimal_text(a as nat)
}

/// The nodes of the first `count` arguments of event `e`.
pub open spec fn argument_nodes(event: LinguisticEvent, e: int, count: int) -> Seq<NodeView>
    decreases count,
{
    if count <= 0 {
        Seq::empty()
    } else {
        argument_nodes(event, e, count - 1).push(
            NodeView {
                id: argument_node_id(e, count - 1),
                kind: SemanticGraphNodeKind::EventArgument,
                label: event.arguments@[count - 1].text@,
                span: None,
                sequence_index: Some(event.sentence_index),
                confidence: Some(GraphEvidence::ArgumentConfidence(e as usize, (count - 1) as usize)),
            },
        )
    }
}

/// The nodes of the first `count` events: each event, then its arguments.
pub open spec fn event_nodes(events: Seq<LinguisticEvent>, count: int) -> Seq<NodeView>
    decreases count,
{
    if count <= 0 {
        Seq::empty()
    } else {
        let event = events[count - 1];
        event_nodes(events, count - 1) + seq![
            NodeView {
                id: event_node_id(count - 1),
                kind: SemanticGraphNodeKind::Event,
                label: event.predicate@,
                span: None,
                sequence_index: Some(event.sentence_index),
                confidence: Some(GraphEvidence::EventConfidence((count - 1) as usize)),
            },
        ] + argument_nodes(event, count - 1, event.arguments@.len() as int)
    }
}

/// The edges of the first `count` arguments of event `e`: the event to the
/// argument, then the argument to the canonical entity its text names.
pub open spec fn argument_edges(
    canonicals: Seq<LinguisticCanonicalEntity>,
    event: LinguisticEvent,
    e: int,
    count: int,
) -> Seq<EdgeView>
    decreases count,
{
    if count <= 0 {
        Seq::empty()
    } else {
        let argument = event.arguments@[count - 1];
        let weight = Some(GraphEvidence::ArgumentConfidence(e as usize, (count - 1) as usize));
        let earlier = argument_edges(canonicals, event, e, count - 1).push(
            EdgeView {
                source_id: event_node_id(e),
                target_id: argument_node_id(e, count - 1),
                kind: SemanticGraphEdgeKind::EventArgument,
                label: Some(argument.role@),
                weight,
            },
        );
        match canonical_for(canonicals, lowercase(argument.text@)) {
            Some(canonical) => earlier.push(
                EdgeView {
                    source_id: argument_node_id(e, count - 1),
                    target_id: canonical,
                    kind: SemanticGraphEdgeKind::ResolvesToCanonical,
                    label: None,
                    weight,
                },
            ),
            None => earlier,
        }
    }
}

/// The edges of event `e`: the unit of its sentence to it, then those of its arguments.
pub open spec fn one_event_edges(
    primary: Seq<StructuralUnit>,
    canonicals: Seq<LinguisticCanonicalEntity>,
    event: LinguisticEvent,
    e: int,
) -> Seq<EdgeView> {
    let contains = match unit_at(primary, event.sentence_index as int) {
        Some(unit) => seq![
            EdgeView {
                source_id: unit,
                target_id: event_node_id(e),
                kind: SemanticGraphEdgeKind::UnitContainsEvent,
                label: Some(event.relation_type@),
                weight: Some(GraphEvidence::EventConfidence(e as usize)),
            },
        ],
        None => Seq::empty(),
    };
    contains + argument_edges(canonicals, event, e, event.arguments@.len() as int)
}

/// The edges of the first `count` events.
pub open spec fn event_edges(
    primary: Seq<StructuralUnit>,
    canonicals: Seq<LinguisticCanonicalEntity>,
    events: Seq<LinguisticEvent>,
    count: int,
) -> Seq<EdgeView>
    decreases count,
{
    if count <= 0 {
        Seq::empty()
    } else {
        event_edges(primary, canonicals, events, count - 1) + one_event_edges(
            primary,
            canonicals,
            events[count - 1],
            count - 1,
        )
    }
}

fn add_arguments(
    nodes: &mut Vec<SemanticGraphNode>,
    edges: &mut Vec<SemanticGraphEdge>,
    canonicals: &[LinguisticCanonicalEntity],
    event: &LinguisticEvent,
    e: usize,
)
    ensures
        node_views(final(nodes)@) == node_views(old(nodes)@) + argument_nodes(
            *event,
            e as int,
            event.arguments@.len() as int,
        ),
        edge_views(final(edges)@) == edge_views(old(edges)@) + argument_edges(
            canonicals@,
            *event,
            e as int,
            event.arguments@.len() as int,
        ),
{
    let ghost node_base = node_views(nodes@);
    let ghost edge_base = edge_views(edges@);
    let event_id = numbered("event:", e);
    let mut a: usize = 0;
    while a < event.arguments.len()
        invariant
            a <= event.arguments@.len(),
            event_id@ == event_node_id(e as int),
            node_views(nodes@) == node_base + argument_nodes(*event, e as int, a as int),
            edge_views(edges@) == edge_base + argument_edges(canonicals@, *event, e as int, a as int),
        decreases event.arguments@.len() - a,
    {
        let argument = &event.arguments[a];
        let mut argument_id = joined(event_id.as_str(), ":argument:");
        let digits = decimal(a);
        argument_id.append(digits.as_str());
        let node = SemanticGraphNode {
            id: argument_id.clone(),
            kind: SemanticGraphNodeKind::EventArgument,
            label: argument.text.clone(),
            span: None,
            sequence_index: Some(event.sentence_index),
            confidence: Some(GraphEvidence::ArgumentConfidence(e, a)),
        };
        push_node(nodes, node);
        let edge = SemanticGraphEdge {
            source_id: event_id.clone(),
            target_id: argument_id.clone(),
            kind: SemanticGraphEdgeKind::EventArgument,
            label: Some(argument.role.clone()),
            weight: Some(GraphEvidence::ArgumentConfidence(e, a)),
        };
        push_edge(edges, edge);
        proof {
            assert(node_base + argument_nodes(*event, e as int, a + 1) =~= node_base + argument_nodes(
                *event,
                e as int,
                a as int,
            ).push(node@));
        }
        let name = to_lowercase(argument.text.as_str());
        match find_canonical(canonicals, name.as_str()) {
            Some(canonical) => {
                let resolves = SemanticGraphEdge {
                    source_id: argument_id,
                    target_id: canonical,
                    kind: SemanticGraphEdgeKind::ResolvesToCanonical,
                    label: None,
                    weight: Some(GraphEvidence::ArgumentConfidence(e, a)),
                };
                push_edge(edges, resolves);
                proof {
                    assert(edge_base + argument_edges(canonicals@, *event, e as int, a + 1) =~= edge_base
                        + argument_edges(canonicals@, *event, e as int, a as int).push(edge@).push(resolves@));
                }
            },
            None => {
                proof {
                    assert(edge_base + argument_edges(canonicals@, *event, e as int, a + 1) =~= edge_base
                        + argument_edges(canonicals@, *event, e as int, a as int).push(edge@));
                }
            },
        }
        a = a + 1;
    }
}

fn add_events(
    nodes: &mut Vec<SemanticGraphNode>,
    edges: &mut Vec<SemanticGraphEdge>,
    units: &[StructuralUnit],
    positions: &Vec<usize>,
    primary: Ghost<Seq<StructuralUnit>>,
    canonicals: &[LinguisticCanonicalEntity],
    events: &[LinguisticEvent],
)
    requires
        positions@.len() == primary@.len(),
        forall|i: int|
            0 <= i < positions@.len() ==> (#[trigger] positions@[i]) < units@.len() && units@[positions@[i] as int]
                == primary@[i],
    ensures
        node_views(final(nodes)@) == node_views(old(nodes)@) + event_nodes(events@, events@.len() as int),
        edge_views(final(edges)@) == edge_views(old(edges)@) + event_edges(
            primary@,
            canonicals@,
            events@,
            events@.len() as int,
        ),
{
    let ghost node_base = node_views(nodes@);
    let ghost edge_base = edge_views(edges@);
    let mut e: usize = 0;
    while e < events.len()
        invariant
            e <= events@.len(),
            positions@.len() == primary@.len(),
            forall|i: int|
                0 <= i < positions@.len() ==> (#[trigger] positions@[i]) < units@.len()
                    && units@[positions@[i] as int] == primary@[i],
            node_views(nodes@) == node_base + event_nodes(events@, e as int),
            edge_views(edges@) == edge_base + event_edges(primary@, canonicals@, events@, e as int),
        decreases events@.len() - e,
    {
        let event = &events[e];
        let event_id = numbered("event:", e);
        let node = SemanticGraphNode {
            id: event_id.clone(),
            kind: SemanticGraphNodeKind::Event,
            label: event.predicate.clone(),
            span: None,
            sequence_index: Some(event.sentence_index),
            confidence: Some(GraphEvidence::EventConfidence(e)),
        };
        push_node(nodes, node);
        let ghost before_edges = edge_views(edges@);
        let ghost contains: Seq<EdgeView>;
        match find_unit_at(units, positions, primary, event.sentence_index) {
            Some(k) => {
                let edge = SemanticGraphEdge {
                    source_id: units[k].id.clone(),
                    target_id: event_id,
                    kind: SemanticGraphEdgeKind::UnitContainsEvent,
                    label: Some(event.relation_type.clone()),
                    weight: Some(GraphEvidence::EventConfidence(e)),
                };
                push_edge(edges, edge);
                proof {
                    contains = seq![edge@];
                }
            },
            None => {
                proof {
                    contains = Seq::empty();
                }
            },
        }
        proof {
            assert(edge_views(edges@) =~= before_edges + contains);
        }
        add_arguments(nodes, edges, canonicals, event, e);
        proof {
            assert(node_base + event_nodes(events@, e + 1) =~= node_base + event_nodes(events@, e as int) + seq![node@]
                + argument_nodes(events@[e as int], e as int, events@[e as int].arguments@.len() as int));
            assert(one_event_edges(primary@, canonicals@, events@[e as int], e as int) =~= contains + argument_edges(
                canonicals@,
                events@[e as int],
                e as int,
                events@[e as int].arguments@.len() as int,
            ));
            assert(edge_base + event_edges(primary@, canonicals@, events@, e + 1) =~= edge_base + event_edges(
                primary@,
                canonicals@,
                events@,
                e as int,
            ) + contains + argument_edges(
                canonicals@,
                events@[e as int],
                e as int,
                events@[e as int].arguments@.len() as int,
            ));
        }
        e = e + 1;
    }
}

// ----- relations -----

/// Whether `pattern` occurs in `text`.
pub open spec fn contains_text(text: Seq<char>, pattern: Seq<char>) -> bool {
    exists|i: int| 0 <= i && i + pattern.len() <= text.len() && #[trigger] text.subrange(i, i + pattern.len()) == pattern
}

/// Whether `pattern` occurs in `text`, as `str::contains` answers.
fn text_contains(text: &str, pattern: &str) -> (found: bool)
    ensures
        found == contains_text(text@, pattern@),
{
    let text_chars = crate::chars::collect_chars(text);
    let pattern_chars = crate::chars::collect_chars(pattern);
    if pattern_chars.len() > text_chars.len() {
        proof {
            assert forall|i: int| 0 <= i && i + pattern@.len() <= text@.len() implies #[trigger] text@.subrange(
                i,
                i + pattern@.len(),
            ) != pattern@ by {}
        }
        return false;
    }
    let text_len = text_chars.len();
    let pattern_len = pattern_chars.len();
    let mut start: usize = 0;
    while pattern_len <= text_len - start
        invariant
            text_chars@ == text@,
            pattern_chars@ == pattern@,
            text_len == text@.len(),
            pattern_len == pattern@.len(),
            pattern_len <= text_len,
            start <= text_len,
            forall|i: int| 0 <= i < start ==> #[trigger] text@.subrange(i, i + pattern@.len()) != pattern@,
        decreases text_len - start,
    {
        let mut k: usize = 0;
        while k < pattern_len && text_chars[start + k] == pattern_chars[k]
            invariant
                text_chars@ == text@,
                pattern_chars@ == pattern@,
                text_len == text@.len(),
                pattern_len == pattern@.len(),
                start + pattern_len <= text_len,
                k <= pattern_len,
                forall|j: int| 0 <= j < k ==> text@[start + j] == pattern@[j],
            decreases pattern_len - k,
        {
            k = k + 1;
        }
        if k == pattern_len {
            proof {
                assert(text@.subrange(start as int, start + pattern@.len()) =~= pattern@);
            }
            return true;
        }
        proof {
            assert(text@.subrange(start as int, start + pattern@.len())[k as int] != pattern@[k as int]);
        }
        start = start + 1;
    }
    proof {
        assert forall|i: int| 0 <= i && i + pattern@.len() <= text@.len() implies #[trigger] text@.subrange(
            i,
            i + pattern@.len(),
        ) != pattern@ by {
            assert(i < start);
        }
    }
    false
}

/// The node id of relation `r`.
pub open spec fn relation_node_id(r: int) -> Seq<char> {
    "relation:"@ + decimal_text(r as nat)
}

/// The node id of the endpoint of relation `r` in the role `role`.
pub open spec fn endpoint_node_id(r: int, role: Seq<char>) -> Seq<char> {
    relation_node_id(r) + ":"@ + role
}

/// The id of the first primary unit, from position `from` on, whose text in
/// lower case holds both the subject and the object in lower case.
pub open spec fn relation_unit(primary: Seq<StructuralUnit>, subject: Seq<char>, object: Seq<char>, from: int) -> Option<
    Seq<char>,
>
    decreases primary.len() - from,
{
    if from < 0 || from >= primary.len() {
        None
    } else if contains_text(lowercase(primary[from].text@), lowercase(subject)) && contains_text(
        lowercase(primary[from].text@),
        lowercase(object),
    ) {
        Some(primary[from].id@)
    } else {
        relation_unit(primary, subject, object, from + 1)
    }
}

/// The node of the endpoint of relation `r` in the role `role`.
pub open spec fn endpoint_node(r: int, role: Seq<char>, text: Seq<char>) -> NodeView {
    NodeView {
        id: endpoint_node_id(r, role),
        kind: SemanticGraphNodeKind::RelationEndpoint,
        label: text,
        span: None,
        sequence_index: None,
        confidence: Some(GraphEvidence::RelationConfidence(r as usize)),
    }
}

/// The nodes of the first `count` relations: each relation, then its
/// subject and object endpoints.
pub open spec fn relation_nodes(relations: Seq<LinguisticRelation>, count: int) -> Seq<NodeView>
    decreases count,
{
    if count <= 0 {
        Seq::empty()
    } else {
        let relation = relations[count - 1];
        relation_nodes(relations, count - 1) + seq![
            NodeView {
                id: relation_node_id(count - 1),
                kind: SemanticGraphNodeKind::Relation,
                label: relation.subject@ + " "@ + relation.relation@ + " "@ + relation.object@,
                span: None,
                sequence_index: None,
                confidence: Some(GraphEvidence::RelationConfidence((count - 1) as usize)),
            },
            endpoint_node(count - 1, "subject"@, relation.subject@),
            endpoint_node(count - 1, "object"@, relation.object@),
        ]
    }
}

/// The edges of one endpoint of relation `r`: the relation to the endpoint,
/// then the endpoint to the canonical entity its text names.
pub open spec fn endpoint_edges(
    canonicals: Seq<LinguisticCanonicalEntity>,
    r: int,
    role: Seq<char>,
    text: Seq<char>,
    kind: SemanticGraphEdgeKind,
) -> Seq<EdgeView> {
    let weight = Some(GraphEvidence::RelationConfidence(r as usize));
    let link = seq![
        EdgeView {
            source_id: relation_node_id(r),
            target_id: endpoint_node_id(r, role),
            kind,
            label: Some(role),
            weight,
        },
    ];
    match canonical_for(canonicals, lowercase(text)) {
        Some(canonical) => link.push(
            EdgeView {
                source_id: endpoint_node_id(r, role),
                target_id: canonical,
                kind: SemanticGraphEdgeKind::ResolvesToCanonical,
                label: None,
                weight,
            },
        ),
        None => link,
    }
}

/// The edges of relation `r`: the unit that holds it to it, then those of
/// its subject and of its object.
pub open spec fn one_relation_edges(
    primary: Seq<StructuralUnit>,
    canonicals: Seq<LinguisticCanonicalEntity>,
    relation: LinguisticRelation,
    r: int,
) -> Seq<EdgeView> {
    let contains = match relation_unit(primary, relation.subject@, relation.object@, 0) {
        Some(unit) => seq![
            EdgeView {
                source_id: unit,
                target_id: relation_node_id(r),
                kind: SemanticGraphEdgeKind::UnitContainsRelation,
                label: Some(relation.relation_type@),
                weight: Some(GraphEvidence::RelationConfidence(r as usize)),
            },
        ],
        None => Seq::empty(),
    };
    contains + endpoint_edges(canonicals, r, "subject"@, relation.subject@, SemanticGraphEdgeKind::RelationSubject)
        + endpoint_edges(canonicals, r, "object"@, relation.object@, SemanticGraphEdgeKind::RelationObject)
}

/// The edges of the first `count` relations.
pub open spec fn relation_edges(
    primary: Seq<StructuralUnit>,
    canonicals: Seq<LinguisticCanonicalEntity>,
    relations: Seq<LinguisticRelation>,
    count: int,
) -> Seq<EdgeView>
    decreases count,
{
    if count <= 0 {
        Seq::empty()
    } else {
        relation_edges(primary, canonicals, relations, count - 1) + one_relation_edges(
            primary,
            canonicals,
            relations[count - 1],
            count - 1,
        )
    }
}

fn find_relation_unit(
    units: &[StructuralUnit],
    positions: &Vec<usize>,
    primary: Ghost<Seq<StructuralUnit>>,
    subject: &str,
    object: &str,
) -> (found: Option<usize>)
    requires
        positions@.len() == primary@.len(),
        forall|i: int|
            0 <= i < positions@.len() ==> (#[trigger] positions@[i]) < units@.len() && units@[positions@[i] as int]
                == primary@[i],
    ensures
        match found {
            Some(k) => k < units@.len() && relation_unit(primary@, subject@, object@, 0) == Some(units@[k as int].id@),
            None => relation_unit(primary@, subject@, object@, 0) is None,
        },
{
    let subject_lower = to_lowercase(subject);
    let object_lower = to_lowercase(object);
    let mut index: usize = 0;
    while index < positions.len()
        invariant
            index <= positions@.len(),
            positions@.len() == primary@.len(),
            forall|i: int|
                0 <= i < positions@.len() ==> (#[trigger] positions@[i]) < units@.len()
                    && units@[positions@[i] as int] == primary@[i],
            subject_lower@ == lowercase(subject@),
            object_lower@ == lowercase(object@),
            relation_unit(primary@, subject@, object@, 0) == relation_unit(primary@, subject@, object@, index as int),
        decreases positions@.len() - index,
    {
        let unit = &units[positions[index]];
        let text = to_lowercase(unit.text.as_str());
        if text_contains(text.as_str(), subject_lower.as_str()) && text_contains(text.as_str(), object_lower.as_str()) {
            return Some(positions[index]);
        }
        index = index + 1;
    }
    None
}

fn add_endpoint(
    nodes: &mut Vec<SemanticGraphNode>,
    edges: &mut Vec<SemanticGraphEdge>,
    canonicals: &[LinguisticCanonicalEntity],
    relation_id: &str,
    r: usize,
    role: &str,
    text: &str,
    kind: SemanticGraphEdgeKind,
)
    requires
        relation_id@ == relation_node_id(r as int),
    ensures
        node_views(final(nodes)@) == node_views(old(nodes)@).push(endpoint_node(r as int, role@, text@)),
        edge_views(final(edges)@) == edge_views(old(edges)@) + endpoint_edges(canonicals@, r as int, role@, text@, kind),
{
    let ghost edge_base = edge_views(edges@);
    let mut endpoint_id = joined(relation_id, ":");
    endpoint_id.append(role);
    push_node(
        nodes,
        SemanticGraphNode {
            id: endpoint_id.clone(),
            kind: SemanticGraphNodeKind::RelationEndpoint,
            label: String::from_str(text),
            span: None,
            sequence_index: None,
            confidence: Some(GraphEvidence::RelationConfidence(r)),
        },
    );
    let link = SemanticGraphEdge {
        source_id: String::from_str(relation_id),
        target_id: endpoint_id.clone(),
        kind,
        label: Some(String::from_str(role)),
        weight: Some(GraphEvidence::RelationConfidence(r)),
    };
    push_edge(edges, link);
    let name = to_lowercase(text);
    match find_canonical(canonicals, name.as_str()) {
        Some(canonical) => {
            let resolves = SemanticGraphEdge {
                source_id: endpoint_id,
                target_id: canonical,
                kind: SemanticGraphEdgeKind::ResolvesToCanonical,
                label: None,
                weight: Some(GraphEvidence::RelationConfidence(r)),
            };
            push_edge(edges, resolves);
            proof {
                assert(edge_views(edges@) =~= edge_base + seq![link@, resolves@]);
                assert(endpoint_edges(canonicals@, r as int, role@, text@, kind) =~= seq![link@, resolves@]);
            }
        },
        None => {
            proof {
                assert(edge_views(edges@) =~= edge_base + seq![link@]);
                assert(endpoint_edges(canonicals@, r as int, role@, text@, kind) =~= seq![link@]);
            }
        },
    }
}

fn add_relations(
    nodes: &mut Vec<SemanticGraphNode>,
    edges: &mut Vec<SemanticGraphEdge>,
    units: &[StructuralUnit],
    positions: &Vec<usize>,
    primary: Ghost<Seq<StructuralUnit>>,
    canonicals: &[LinguisticCanonicalEntity],
    relations: &[LinguisticRelation],
)
    requires
        positions@.len() == primary@.len(),
        forall|i: int|
            0 <= i < positions@.len() ==> (#[trigger] positions@[i]) < units@.len() && units@[positions@[i] as int]
                == primary@[i],
    ensures
        node_views(final(nodes)@) == node_views(old(nodes)@) + relation_nodes(relations@, relations@.len() as int),
        edge_views(final(edges)@) == edge_views(old(edges)@) + relation_edges(
            primary@,
            canonicals@,
            relations@,
            relations@.len() as int,
        ),
{
    let ghost node_base = node_views(nodes@);
    let ghost edge_base = edge_views(edges@);
    let mut r: usize = 0;
    while r < relations.len()
        invariant
            r <= relations@.len(),
            positions@.len() == primary@.len(),
            forall|i: int|
                0 <= i < positions@.len() ==> (#[trigger] positions@[i]) < units@.len()
                    && units@[positions@[i] as int] == primary@[i],
            node_views(nodes@) == node_base + relation_nodes(relations@, r as int),
            edge_views(edges@) == edge_base + relation_edges(primary@, canonicals@, relations@, r as int),
        decreases relations@.len() - r,
    {
        let relation = &relations[r];
        let relation_id = numbered("relation:", r);
        let mut label = joined(relation.subject.as_str(), " ");
        label.append(relation.relation.as_str());
        label.append(" ");
        label.append(relation.object.as_str());
        let node = SemanticGraphNode {
            id: relation_id.clone(),
            kind: SemanticGraphNodeKind::Relation,
            label,
            span: None,
            sequence_index: None,
            confidence: Some(GraphEvidence::RelationConfidence(r)),
        };
        push_node(nodes, node);
        let ghost before_edges = edge_views(edges@);
        let ghost contains: Seq<EdgeView>;
        match find_relation_unit(units, positions, primary, relation.subject.as_str(), relation.object.as_str()) {
            Some(k) => {
                let edge = SemanticGraphEdge {
                    source_id: units[k].id.clone(),
                    target_id: relation_id.clone(),
                    kind: SemanticGraphEdgeKind::UnitContainsRelation,
                    label: Some(relation.relation_type.clone()),
                    weight: Some(GraphEvidence::RelationConfidence(r)),
                };
                push_edge(edges, edge);
                proof {
                    contains = seq![edge@];
                }
            },
            None => {
                proof {
                    contains = Seq::empty();
                }
            },
        }
        proof {
            assert(edge_views(edges@) =~= before_edges + contains);
        }
        add_endpoint(
            nodes,
            edges,
            canonicals,
            relation_id.as_str(),
            r,
            "subject",
            relation.subject.as_str(),
            SemanticGraphEdgeKind::RelationSubject,
        );
        add_endpoint(
            nodes,
            edges,
            canonicals,
            relation_id.as_str(),
            r,
            "object",
            relation.object.as_str(),
            SemanticGraphEdgeKind::RelationObject,
        );
        proof {
            assert(node_base + relation_nodes(relations@, r + 1) =~= node_base + relation_nodes(relations@, r as int)
                + seq![
                node@,
                endpoint_node(r as int, "subject"@, relations@[r as int].subject@),
                endpoint_node(r as int, "object"@, relations@[r as int].object@),
            ]);
            assert(edge_base + relation_edges(primary@, canonicals@, relations@, r + 1) =~= edge_base
                + relation_edges(primary@, canonicals@, relations@, r as int) + contains + endpoint_edges(
                canonicals@,
                r as int,
                "subject"@,
                relations@[r as int].subject@,
                SemanticGraphEdgeKind::RelationSubject,
            ) + endpoint_edges(
                canonicals@,
                r as int,
                "object"@,
                relations@[r as int].object@,
                SemanticGraphEdgeKind::RelationObject,
            ));
        }
        r = r + 1;
    }
}

// ----- discourse and topics -----

/// The node id of the discourse segment numbered `index`.
pub open spec fn discourse_node_id(index: usize) -> Seq<char> {
    "discourse:"@ + decimal_text(index as nat)
}

/// The nodes of the discourse segments.
pub open spec fn discourse_nodes(segments: Seq<DiscourseSegment>) -> Seq<NodeView> {
    Seq::new(
        segments.len(),
        |d: int|
            NodeView {
                id: discourse_node_id(segments[d].index),
                kind: SemanticGraphNodeKind::Discourse,
                label: segments[d].text@,
                span: None,
                sequence_index: Some(segments[d].sentence_start),
                confidence: Some(GraphEvidence::DiscourseConfidence(d as usize)),
            },
    )
}

/// The edges to segment `d` from the units of its sentences below `upto`.
pub open spec fn segment_unit_edges(primary: Seq<StructuralUnit>, segment: DiscourseSegment, d: int, upto: int) -> Seq<
    EdgeView,
>
    decreases upto - segment.sentence_start,
{
    if upto <= segment.sentence_start {
        Seq::empty()
    } else {
        let earlier = segment_unit_edges(primary, segment, d, upto - 1);
        match unit_at(primary, upto - 1) {
            Some(unit) => earlier.push(
                EdgeView {
                    source_id: unit,
                    target_id: discourse_node_id(segment.index),
                    kind: SemanticGraphEdgeKind::UnitContainsDiscourse,
                    label: Some(segment.kind@),
                    weight: Some(GraphEvidence::DiscourseConfidence(d as usize)),
                },
            ),
            None => earlier,
        }
    }
}

/// The edges of segment `d`: from the units of its sentences, then from the
/// previous segment when it names its relation to it.
pub open spec fn one_segment_edges(primary: Seq<StructuralUnit>, segment: DiscourseSegment, d: int) -> Seq<EdgeView> {
    let contained = segment_unit_edges(primary, segment, d, segment.sentence_end as int);
    match segment.relation_to_previous {
        Some(relation) => if segment.index > 0 {
            contained.push(
                EdgeView {
                    source_id: discourse_node_id((segment.index - 1) as usize),
                    target_id: discourse_node_id(segment.index),
                    kind: SemanticGraphEdgeKind::DiscourseTransition,
                    label: Some(relation@),
                    weight: Some(GraphEvidence::DiscourseConfidence(d as usize)),
                },
            )
        } else {
            contained
        },
        None => contained,
    }
}

/// The edges of the first `count` discourse segments.
pub open spec fn discourse_edges(primary: Seq<StructuralUnit>, segments: Seq<DiscourseSegment>, count: int) -> Seq<
    EdgeView,
>
    decreases count,
{
    if count <= 0 {
        Seq::empty()
    } else {
        discourse_edges(primary, segments, count - 1) + one_segment_edges(primary, segments[count - 1], count - 1)
    }
}

/// The node id of a topic.
pub open spec fn topic_node_id(topic: TopicCluster) -> Seq<char> {
    "topic:"@ + topic.id@
}

/// The terms joined with `", "`.
pub open spec fn joined_terms(terms: Seq<String>) -> Seq<char>
    decreases terms.len(),
{
    if terms.len() == 0 {
        Seq::empty()
    } else if terms.len() == 1 {
        terms[0]@
    } else {
        joined_terms(terms.drop_last()) + ", "@ + terms.last()@
    }
}

/// The nodes of the topics.
pub open spec fn topic_nodes(topics: Seq<TopicCluster>) -> Seq<NodeView> {
    Seq::new(
        topics.len(),
        |t: int|
            NodeView {
                id: topic_node_id(topics[t]),
                kind: SemanticGraphNodeKind::Topic,
                label: topics[t].label@,
                span: None,
                sequence_index: if topics[t].sentence_indices@.len() > 0 {
                    Some(topics[t].sentence_indices@[0])
                } else {
                    None
                },
                confidence: Some(GraphEvidence::TopicScore(t as usize)),
            },
    )
}

/// The edges to topic `t` from the units of its first `count` sentences.
pub open spec fn topic_unit_edges(primary: Seq<StructuralUnit>, topic: TopicCluster, t: int, count: int) -> Seq<
    EdgeView,
>
    decreases count,
{
    if count <= 0 {
        Seq::empty()
    } else {
        let earlier = topic_unit_edges(primary, topic, t, count - 1);
        match unit_at(primary, topic.sentence_indices@[count - 1] as int) {
            Some(unit) => earlier.push(
                EdgeView {
                    source_id: unit,
                    target_id: topic_node_id(topic),
                    kind: SemanticGraphEdgeKind::UnitTopic,
                    label: Some(joined_terms(topic.terms@)),
                    weight: Some(GraphEvidence::TopicScore(t as usize)),
                },
            ),
            None => earlier,
        }
    }
}

/// The edges of the first `count` topics.
pub open spec fn topic_edges(primary: Seq<StructuralUnit>, topics: Seq<TopicCluster>, count: int) -> Seq<EdgeView>
    decreases count,
{
    if count <= 0 {
        Seq::empty()
    } else {
        let topic = topics[count - 1];
        topic_edges(primary, topics, count - 1) + topic_unit_edges(
            primary,
            topic,
            count - 1,
            topic.sentence_indices@.len() as int,
        )
    }
}

fn add_segment(
    nodes: &mut Vec<SemanticGraphNode>,
    edges: &mut Vec<SemanticGraphEdge>,
    units: &[StructuralUnit],
    positions: &Vec<usize>,
    primary: Ghost<Seq<StructuralUnit>>,
    segment: &DiscourseSegment,
    d: usize,
)
    requires
        positions@.len() == primary@.len(),
        forall|i: int|
            0 <= i < positions@.len() ==> (#[trigger] positions@[i]) < units@.len() && units@[positions@[i] as int]
                == primary@[i],
    ensures
        node_views(final(nodes)@) == node_views(old(nodes)@).push(
            NodeView {
                id: discourse_node_id(segment.index),
                kind: SemanticGraphNodeKind::Discourse,
                label: segment.text@,
                span: None,
                sequence_index: Some(segment.sentence_start),
                confidence: Some(GraphEvidence::DiscourseConfidence(d)),
            },
        ),
        edge_views(final(edges)@) == edge_views(old(edges)@) + one_segment_edges(primary@, *segment, d as int),
{
    let ghost edge_base = edge_views(edges@);
    let segment_id = numbered("discourse:", segment.index);
    push_node(
        nodes,
        SemanticGraphNode {
            id: segment_id.clone(),
            kind: SemanticGraphNodeKind::Discourse,
            label: segment.text.clone(),
            span: None,
            sequence_index: Some(segment.sentence_start),
            confidence: Some(GraphEvidence::DiscourseConfidence(d)),
        },
    );
    let mut sentence: usize = segment.sentence_start;
    while sentence < segment.sentence_end
        invariant
            segment.sentence_start <= sentence,
            sentence <= segment.sentence_end || sentence == segment.sentence_start,
            positions@.len() == primary@.len(),
            forall|i: int|
                0 <= i < positions@.len() ==> (#[trigger] positions@[i]) < units@.len()
                    && units@[positions@[i] as int] == primary@[i],
            segment_id@ == discourse_node_id(segment.index),
            edge_views(edges@) == edge_base + segment_unit_edges(primary@, *segment, d as int, sentence as int),
        decreases segment.sentence_end - sentence,
    {
        match find_unit_at(units, positions, primary, sentence) {
            Some(k) => {
                let edge = SemanticGraphEdge {
                    source_id: units[k].id.clone(),
                    target_id: segment_id.clone(),
                    kind: SemanticGraphEdgeKind::UnitContainsDiscourse,
                    label: Some(segment.kind.clone()),
                    weight: Some(GraphEvidence::DiscourseConfidence(d)),
                };
                push_edge(edges, edge);
                proof {
                    assert(edge_base + segment_unit_edges(primary@, *segment, d as int, sentence + 1) =~= edge_base
                        + segment_unit_edges(primary@, *segment, d as int, sentence as int).push(edge@));
                }
            },
            None => {},
        }
        sentence = sentence + 1;
    }
    proof {
        if segment.sentence_end < segment.sentence_start {
            assert(segment_unit_edges(primary@, *segment, d as int, segment.sentence_end as int) =~= Seq::empty());
        } else {
            assert(sentence == segment.sentence_end);
        }
    }
    let ghost contained = edge_views(edges@);
    proof {
        assert(contained == edge_base + segment_unit_edges(
            primary@,
            *segment,
            d as int,
            segment.sentence_end as int,
        ));
    }
    match &segment.relation_to_previous {
        Some(relation) => {
            if segment.index > 0 {
                let edge = SemanticGraphEdge {
                    source_id: numbered("discourse:", segment.index - 1),
                    target_id: segment_id,
                    kind: SemanticGraphEdgeKind::DiscourseTransition,
                    label: Some(relation.clone()),
                    weight: Some(GraphEvidence::DiscourseConfidence(d)),
                };
                push_edge(edges, edge);
                proof {
                    assert(edge_views(edges@) =~= edge_base + one_segment_edges(primary@, *segment, d as int));
                }
            } else {
                proof {
                    assert(edge_views(edges@) =~= edge_base + one_segment_edges(primary@, *segment, d as int));
                }
            }
        },
        None => {
            proof {
                assert(edge_views(edges@) =~= edge_base + one_segment_edges(primary@, *segment, d as int));
            }
        },
    }
}

fn add_discourse(
    nodes: &mut Vec<SemanticGraphNode>,
    edges: &mut Vec<SemanticGraphEdge>,
    units: &[StructuralUnit],
    positions: &Vec<usize>,
    primary: Ghost<Seq<StructuralUnit>>,
    segments: &[DiscourseSegment],
)
    requires
        positions@.len() == primary@.len(),
        forall|i: int|
            0 <= i < positions@.len() ==> (#[trigger] positions@[i]) < units@.len() && units@[positions@[i] as int]
                == primary@[i],
    ensures
        node_views(final(nodes)@) == node_views(old(nodes)@) + discourse_nodes(segments@),
        edge_views(final(edges)@) == edge_views(old(edges)@) + discourse_edges(primary@, segments@, segments@.len() as int),
{
    let ghost node_base = node_views(nodes@);
    let ghost edge_base = edge_views(edges@);
    let mut d: usize = 0;
    while d < segments.len()
        invariant
            d <= segments@.len(),
            positions@.len() == primary@.len(),
            forall|i: int|
                0 <= i < positions@.len() ==> (#[trigger] positions@[i]) < units@.len()
                    && units@[positions@[i] as int] == primary@[i],
            node_views(nodes@) == node_base + discourse_nodes(segments@.take(d as int)),
            edge_views(edges@) == edge_base + discourse_edges(primary@, segments@, d as int),
        decreases segments@.len() - d,
    {
        add_segment(nodes, edges, units, positions, primary, &segments[d], d);
        proof {
            assert(discourse_nodes(segments@.take(d + 1)) =~= discourse_nodes(segments@.take(d as int)).push(
                discourse_nodes(segments@)[d as int],
            ));
            assert(edge_base + discourse_edges(primary@, segments@, d + 1) =~= edge_base + discourse_edges(
                primary@,
                segments@,
                d as int,
            ) + one_segment_edges(primary@, segments@[d as int], d as int));
        }
        d = d + 1;
    }
    proof {
        assert(segments@.take(d as int) =~= segments@);
    }
}

fn join_terms(terms: &Vec<String>) -> (text: String)
    ensures
        text@ == joined_terms(terms@),
{
    let mut text = String::from_str("");
    let mut index: usize = 0;
    proof {
        reveal_strlit("");
        assert(text@ =~= joined_terms(terms@.take(0)));
    }
    while index < terms.len()
        invariant
            index <= terms@.len(),
            text@ == joined_terms(terms@.take(index as int)),
        decreases terms@.len() - index,
    {
        proof {
            assert(terms@.take(index + 1).drop_last() =~= terms@.take(index as int));
        }
        if index > 0 {
            text.append(", ");
        }
        text.append(terms[index].as_str());
        proof {
            if index == 0 {
                assert(text@ =~= terms@[0]@);
            }
        }
        index = index + 1;
    }
    proof {
        assert(terms@.take(index as int) =~= terms@);
    }
    text
}

fn add_topic(
    nodes: &mut Vec<SemanticGraphNode>,
    edges: &mut Vec<SemanticGraphEdge>,
    units: &[StructuralUnit],
    positions: &Vec<usize>,
    primary: Ghost<Seq<StructuralUnit>>,
    topic: &TopicCluster,
    t: usize,
)
    requires
        positions@.len() == primary@.len(),
        forall|i: int|
            0 <= i < positions@.len() ==> (#[trigger] positions@[i]) < units@.len() && units@[positions@[i] as int]
                == primary@[i],
    ensures
        node_views(final(nodes)@) == node_views(old(nodes)@).push(
            NodeView {
                id: topic_node_id(*topic),
                kind: SemanticGraphNodeKind::Topic,
                label: topic.label@,
                span: None,
                sequence_index: if topic.sentence_indices@.len() > 0 {
                    Some(topic.sentence_indices@[0])
                } else {
                    None
                },
                confidence: Some(GraphEvidence::TopicScore(t)),
            },
        ),
        edge_views(final(edges)@) == edge_views(old(edges)@) + topic_unit_edges(
            primary@,
            *topic,
            t as int,
            topic.sentence_indices@.len() as int,
        ),
{
    let ghost edge_base = edge_views(edges@);
    let topic_id = joined("topic:", topic.id.as_str());
    push_node(
        nodes,
        SemanticGraphNode {
            id: topic_id.clone(),
            kind: SemanticGraphNodeKind::Topic,
            label: topic.label.clone(),
            span: None,
            sequence_index: if topic.sentence_indices.len() > 0 {
                Some(topic.sentence_indices[0])
            } else {
                None
            },
            confidence: Some(GraphEvidence::TopicScore(t)),
        },
    );
    let terms = join_terms(&topic.terms);
    let mut k: usize = 0;
    while k < topic.sentence_indices.len()
        invariant
            k <= topic.sentence_indices@.len(),
            positions@.len() == primary@.len(),
            forall|i: int|
                0 <= i < positions@.len() ==> (#[trigger] positions@[i]) < units@.len()
                    && units@[positions@[i] as int] == primary@[i],
            topic_id@ == topic_node_id(*topic),
            terms@ == joined_terms(topic.terms@),
            edge_views(edges@) == edge_base + topic_unit_edges(primary@, *topic, t as int, k as int),
        decreases topic.sentence_indices@.len() - k,
    {
        match find_unit_at(units, positions, primary, topic.sentence_indices[k]) {
            Some(u) => {
                let edge = SemanticGraphEdge {
                    source_id: units[u].id.clone(),
                    target_id: topic_id.clone(),
                    kind: SemanticGraphEdgeKind::UnitTopic,
                    label: Some(terms.clone()),
                    weight: Some(GraphEvidence::TopicScore(t)),
                };
                push_edge(edges, edge);
                proof {
                    assert(edge_base + topic_unit_edges(primary@, *topic, t as int, k + 1) =~= edge_base
                        + topic_unit_edges(primary@, *topic, t as int, k as int).push(edge@));
                }
            },
            None => {},
        }
        k = k + 1;
    }
}

fn add_topics(
    nodes: &mut Vec<SemanticGraphNode>,
    edges: &mut Vec<SemanticGraphEdge>,
    units: &[StructuralUnit],
    positions: &Vec<usize>,
    primary: Ghost<Seq<StructuralUnit>>,
    topics: &[TopicCluster],
)
    requires
        positions@.len() == primary@.len(),
        forall|i: int|
            0 <= i < positions@.len() ==> (#[trigger] positions@[i]) < units@.len() && units@[positions@[i] as int]
                == primary@[i],
    ensures
        node_views(final(nodes)@) == node_views(old(nodes)@) + topic_nodes(topics@),
        edge_views(final(edges)@) == edge_views(old(edges)@) + topic_edges(primary@, topics@, topics@.len() as int),
{
    let ghost node_base = node_views(nodes@);
    let ghost edge_base = edge_views(edges@);
    let mut t: usize = 0;
    while t < topics.len()
        invariant
            t <= topics@.len(),
            positions@.len() == primary@.len(),
            forall|i: int|
                0 <= i < positions@.len() ==> (#[trigger] positions@[i]) < units@.len()
                    && units@[positions@[i] as int] == primary@[i],
            node_views(nodes@) == node_base + topic_nodes(topics@.take(t as int)),
            edge_views(edges@) == edge_base + topic_edges(primary@, topics@, t as int),
        decreases topics@.len() - t,
    {
        add_topic(nodes, edges, units, positions, primary, &topics[t], t);
        proof {
            assert(topic_nodes(topics@.take(t + 1)) =~= topic_nodes(topics@.take(t as int)).push(
                topic_nodes(topics@)[t as int],
            ));
            assert(edge_base + topic_edges(primary@, topics@, t + 1) =~= edge_base + topic_edges(
                primary@,
                topics@,
                t as int,
            ) + topic_unit_edges(
                primary@,
                topics@[t as int],
                t as int,
                topics@[t as int].sentence_indices@.len() as int,
            ));
        }
        t = t + 1;
    }
    proof {
        assert(topics@.take(t as int) =~= topics@);
    }
}

// ----- the whole graph -----

/// The nodes of the graph: the primary units, the concepts, the entity
/// mentions, the canonical entities, the coreference clusters and their
/// mentions, the events and their arguments, the relations and their
/// endpoints, the discourse segments, the topics.
pub open spec fn graph_nodes(
    units: Seq<StructuralUnit>,
    primary_kind: SemanticUnitKind,
    concepts: Seq<ConceptSummary>,
    analysis: LinguisticAnalysis,
) -> Seq<NodeView> {
    unit_nodes(primary_of(units, primary_kind)) + concept_nodes(concepts) + entity_nodes(analysis.entities@)
        + canonical_nodes(analysis.canonical_entities@) + coref_nodes(
        analysis.tokens@,
        analysis.coreference@,
        analysis.coreference@.len() as int,
    ) + event_nodes(analysis.events@, analysis.events@.len() as int) + relation_nodes(
        analysis.relations@,
        analysis.relations@.len() as int,
    ) + discourse_nodes(analysis.discourse@) + topic_nodes(analysis.topics@)
}

/// The edges of the graph: the neighbor pairs, the concept memberships, then
/// the edges of the entities, canonical entities, coreference clusters,
/// events, relations, discourse segments and topics.
pub open spec fn graph_edges(
    units: Seq<StructuralUnit>,
    primary_kind: SemanticUnitKind,
    neighbors: Seq<UnitPair>,
    concepts: Seq<ConceptSummary>,
    analysis: LinguisticAnalysis,
) -> Seq<EdgeView> {
    let primary = primary_of(units, primary_kind);
    neighbor_edges(neighbors) + membership_edges(concepts, concepts.len() as int) + entity_edges(
        primary,
        analysis.entities@,
        analysis.entities@.len() as int,
    ) + canonical_edges(
        analysis.entities@,
        analysis.canonical_entities@,
        analysis.canonical_entities@.len() as int,
    ) + coref_edges(primary, analysis.coreference@, analysis.coreference@.len() as int) + event_edges(
        primary,
        analysis.canonical_entities@,
        analysis.events@,
        analysis.events@.len() as int,
    ) + relation_edges(
        primary,
        analysis.canonical_entities@,
        analysis.relations@,
        analysis.relations@.len() as int,
    ) + discourse_edges(primary, analysis.discourse@, analysis.discourse@.len() as int) + topic_edges(
        primary,
        analysis.topics@,
        analysis.topics@.len() as int,
    )
}

/// Composes an already-built semantic map (its units, of which those of
/// `primary_kind` are the primary ones; its neighbor pairs; its concepts)
/// with an already-built linguistic analysis, by deterministic projection
/// into typed nodes and edges. A unit is found by the sentence index that an
/// entity, mention, event, discourse segment or topic names (the last
/// primary unit with that index); a relation belongs to the first primary
/// unit whose lower-case text holds its subject and its object; an argument
/// or relation endpoint resolves to the last canonical entity whose name or
/// alias matches its text in lower case.
pub fn compose_linguistic_semantic_graph(
    units: &[StructuralUnit],
    primary_kind: SemanticUnitKind,
    neighbors: &[UnitPair],
    concepts: &[ConceptSummary],
    analysis: &LinguisticAnalysis,
) -> (graph: SemanticLinguisticGraph)
    ensures
        node_views(graph.nodes@) == graph_nodes(units@, primary_kind, concepts@, *analysis),
        edge_views(graph.edges@) == graph_edges(units@, primary_kind, neighbors@, concepts@, *analysis),
{
    let positions = primary_positions(units, primary_kind);
    let ghost primary = primary_of(units@, primary_kind);
    let mut nodes: Vec<SemanticGraphNode> = Vec::new();
    let mut edges: Vec<SemanticGraphEdge> = Vec::new();
    proof {
        assert(node_views(nodes@) =~= Seq::<NodeView>::empty());
        assert(edge_views(edges@) =~= Seq::<EdgeView>::empty());
    }
    add_unit_nodes(&mut nodes, units, &positions, Ghost(primary));
    add_neighbor_edges(&mut edges, neighbors);
    add_concept_nodes(&mut nodes, concepts);
    add_membership_edges(&mut edges, concepts);
    add_entities(&mut nodes, &mut edges, units, &positions, Ghost(primary), analysis.entities.as_slice());
    add_canonicals(
        &mut nodes,
        &mut edges,
        analysis.entities.as_slice(),
        analysis.canonical_entities.as_slice(),
    );
    add_coreference(
        &mut nodes,
        &mut edges,
        units,
        &positions,
        Ghost(primary),
        &analysis.tokens,
        analysis.coreference.as_slice(),
    );
    add_events(
        &mut nodes,
        &mut edges,
        units,
        &positions,
        Ghost(primary),
        analysis.canonical_entities.as_slice(),
        analysis.events.as_slice(),
    );
    add_relations(
        &mut nodes,
        &mut edges,
        units,
        &positions,
        Ghost(primary),
        analysis.canonical_entities.as_slice(),
        analysis.relations.as_slice(),
    );
    add_discourse(&mut nodes, &mut edges, units, &positions, Ghost(primary), analysis.discourse.as_slice());
    add_topics(&mut nodes, &mut edges, units, &positions, Ghost(primary), analysis.topics.as_slice());
    proof {
        assert(node_views(nodes@) =~= graph_nodes(units@, primary_kind, concepts@, *analysis));
        assert(edge_views(edges@) =~= graph_edges(units@, primary_kind, neighbors@, concepts@, *analysis));
    }
    SemanticLinguisticGraph { nodes, edges }
}

} // verus!
