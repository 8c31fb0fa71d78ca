use nlp_stack::components::{concept_memberships, linked_components};

fn links(n: usize, edges: &[(usize, usize)]) -> Vec<Vec<bool>> {
    let mut matrix = vec![vec![false; n]; n];
    for index in 0..n {
        matrix[index][index] = true;
    }
    for &(a, b) in edges {
        matrix[a][b] = true;
        matrix[b][a] = true;
    }
    matrix
}

#[test]
fn linked_units_form_one_concept_each() {
    let components = linked_components(&links(6, &[(0, 3), (3, 5), (1, 2)]));
    assert_eq!(components, vec![vec![0, 3, 5], vec![1, 2], vec![4]]);
}

#[test]
fn identical_units_form_a_single_concept() {
    let all = vec![vec![true; 4]; 4];
    assert_eq!(linked_components(&all), vec![vec![0, 1, 2, 3]]);
}

#[test]
fn links_are_followed_in_their_direction() {
    let mut matrix = links(3, &[]);
    matrix[2][0] = true;
    assert_eq!(linked_components(&matrix), vec![vec![0], vec![1], vec![2]]);
    matrix[0][2] = true;
    matrix[2][1] = true;
    assert_eq!(linked_components(&matrix), vec![vec![0, 1, 2]]);
}

#[test]
fn no_units_no_concepts() {
    assert!(linked_components(&Vec::new()).is_empty());
}

#[test]
fn concepts_are_named_in_order_with_their_members_and_representative() {
    let unit_ids: Vec<String> = ["u0", "u1", "u2", "u3"].iter().map(|id| id.to_string()).collect();
    let components = vec![vec![0, 2], vec![1], vec![3]];
    let concepts = concept_memberships(&unit_ids, &components, &[2, 1, 3]);
    assert_eq!(concepts.len(), 3);
    assert_eq!(concepts[0].id, "concept-1");
    assert_eq!(concepts[0].member_unit_ids, vec!["u0", "u2"]);
    assert_eq!(concepts[0].representative_unit_id, "u2");
    assert_eq!(concepts[2].id, "concept-3");
    assert_eq!(concepts[2].member_unit_ids, vec!["u3"]);
}

#[test]
fn concept_names_count_past_nine() {
    let unit_ids: Vec<String> = (0..12).map(|index| format!("u{index}")).collect();
    let components: Vec<Vec<usize>> = (0..12).map(|index| vec![index]).collect();
    let representatives: Vec<usize> = (0..12).collect();
    let concepts = concept_memberships(&unit_ids, &components, &representatives);
    assert_eq!(concepts[9].id, "concept-10");
    assert_eq!(concepts[11].id, "concept-12");
}
