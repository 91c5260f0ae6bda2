use bigs::graph::{Edge, Graph};
use bigs::Sampler;

#[test]
fn edge_keeps_its_labels() {
    let edge = Edge::new(3, 7);
    assert_eq!(edge.variable, 3);
    assert_eq!(edge.constraint, 7);
    assert_eq!(edge, Edge { variable: 3, constraint: 7 });
    assert_ne!(edge, Edge::new(7, 3));
}

#[test]
fn new_graph_is_empty() {
    let graph = Graph::new();
    assert_eq!(graph.number_of_variables(), 0);
    assert_eq!(graph.number_of_constraints(), 0);
    assert_eq!(graph.number_of_edges(), 0);
    assert_eq!(graph.edges(), vec![]);
    assert!(graph.variables().next().is_none());
    assert!(graph.constraints().next().is_none());
    assert!(!graph.contains_edge(Edge::new(0, 0)));
}

#[test]
fn inserting_edges_grows_the_graph() {
    let mut graph = Graph::new();

    assert!(graph.insert_edge(Edge::new(0, 0)));
    assert_eq!(graph.number_of_variables(), 1);
    assert_eq!(graph.number_of_constraints(), 1);
    assert_eq!(graph.number_of_edges(), 1);

    assert!(graph.insert_edge(Edge::new(5, 6)));
    assert_eq!(graph.number_of_variables(), 6);
    assert_eq!(graph.number_of_constraints(), 7);
    assert_eq!(graph.number_of_edges(), 2);

    assert_eq!(graph.insert_edge(Edge::new(0, 0)), false);
    assert_eq!(graph.number_of_variables(), 6);
    assert_eq!(graph.number_of_constraints(), 7);
    assert_eq!(graph.number_of_edges(), 2);
}

#[test]
fn a_large_label_makes_room_for_the_nodes_below() {
    let mut graph = Graph::new();
    graph.insert_edge(Edge::new(0, 42));

    assert_eq!(graph.number_of_variables(), 1);
    assert_eq!(graph.number_of_constraints(), 43);
    let mut constraints = graph.constraints();
    let mut seen = 0;
    while let Some(constraint) = constraints.next() {
        assert_eq!(constraint.label(), seen);
        assert_eq!(constraint.degree(), if seen == 42 { 1 } else { 0 });
        seen += 1;
    }
    assert_eq!(seen, 43);
}

#[test]
fn removing_an_edge_keeps_the_nodes() {
    let mut graph = Graph::new();
    graph.insert_edge(Edge::new(0, 0));
    assert_eq!(graph.number_of_edges(), 1);

    assert!(graph.remove_edge(Edge::new(0, 0)));
    assert_eq!(graph.number_of_variables(), 1);
    assert_eq!(graph.number_of_constraints(), 1);
    assert_eq!(graph.number_of_edges(), 0);
    assert!(!graph.contains_edge(Edge::new(0, 0)));
    assert_eq!(graph.variables().next().unwrap().degree(), 0);
    assert_eq!(graph.constraints().next().unwrap().degree(), 0);
}

#[test]
fn removing_an_edge_that_is_not_there_changes_nothing() {
    let mut graph = Graph::new();
    graph.insert_edge(Edge::new(1, 2));
    let before = graph.clone();

    assert!(!graph.remove_edge(Edge::new(2, 1)));
    assert!(!graph.remove_edge(Edge::new(9, 9)));
    assert_eq!(graph, before);
    assert_eq!(graph.number_of_variables(), 2);
    assert_eq!(graph.number_of_constraints(), 3);
    assert_eq!(graph.number_of_edges(), 1);
    assert_eq!(graph.edges(), vec![Edge::new(1, 2)]);
}

#[test]
fn edges_come_in_insertion_order() {
    let mut graph = Graph::new();
    graph.insert_edge(Edge::new(2, 0));
    graph.insert_edge(Edge::new(0, 1));
    graph.insert_edge(Edge::new(1, 1));
    graph.insert_edge(Edge::new(0, 1));

    assert_eq!(
        graph.edges(),
        vec![Edge::new(2, 0), Edge::new(0, 1), Edge::new(1, 1)]
    );
    assert_eq!(graph.edge_at(0), Some(Edge::new(2, 0)));
    assert_eq!(graph.edge_at(2), Some(Edge::new(1, 1)));
    assert_eq!(graph.edge_at(3), None);
}

#[test]
fn a_removed_edge_leaves_its_place_to_the_last() {
    let mut graph = Graph::new();
    graph.insert_edge(Edge::new(0, 0));
    graph.insert_edge(Edge::new(0, 1));
    graph.insert_edge(Edge::new(0, 2));
    graph.insert_edge(Edge::new(1, 0));

    assert!(graph.remove_edge(Edge::new(0, 0)));
    assert_eq!(
        graph.edges(),
        vec![Edge::new(1, 0), Edge::new(0, 1), Edge::new(0, 2)]
    );
    let variable = graph.variables().next().unwrap();
    let neighbors: Vec<usize> = variable.neighbors().iter().copied().collect();
    assert_eq!(neighbors, vec![2, 1]);

    assert!(graph.remove_edge(Edge::new(0, 2)));
    assert_eq!(graph.edges(), vec![Edge::new(1, 0), Edge::new(0, 1)]);
}

#[test]
fn nodes_know_their_neighbors() {
    let mut graph = Graph::new();
    graph.insert_edge(Edge::new(0, 0));
    graph.insert_edge(Edge::new(0, 1));
    graph.insert_edge(Edge::new(1, 2));
    graph.insert_edge(Edge::new(1, 3));

    assert_eq!(graph.number_of_variables(), 2);
    assert_eq!(graph.number_of_constraints(), 4);
    assert_eq!(graph.number_of_edges(), 4);

    let mut variables = graph.variables();

    let first_variable = variables.next().unwrap();
    assert_eq!(first_variable.label(), 0);
    assert_eq!(first_variable.degree(), 2);
    assert!(first_variable.is_variable());
    assert!(!first_variable.is_constraint());
    assert!(first_variable.has_neighbor(0));
    assert!(first_variable.has_neighbor(1));
    assert!(!first_variable.has_neighbor(2));
    let neighbors: Vec<usize> = first_variable.neighbors().iter().copied().collect();
    assert_eq!(neighbors, vec![0, 1]);

    let second_variable = variables.next().unwrap();
    assert_eq!(second_variable.label(), 1);
    assert_eq!(second_variable.degree(), 2);
    let neighbors: Vec<usize> = second_variable.neighbors().iter().copied().collect();
    assert_eq!(neighbors, vec![2, 3]);

    assert!(variables.next().is_none());
    assert!(variables.next().is_none());

    let mut constraints = graph.constraints();

    let first_constraint = constraints.next().unwrap();
    assert_eq!(first_constraint.label(), 0);
    assert_eq!(first_constraint.degree(), 1);
    assert!(first_constraint.is_constraint());
    assert!(!first_constraint.is_variable());
    let neighbors: Vec<usize> = first_constraint.neighbors().iter().copied().collect();
    assert_eq!(neighbors, vec![0]);

    let second_constraint = constraints.next().unwrap();
    assert_eq!(second_constraint.label(), 1);
    assert_eq!(second_constraint.degree(), 1);
    assert!(second_constraint.has_neighbor(0));
    assert!(!second_constraint.has_neighbor(1));

    assert!(constraints.next().is_some());
    assert!(constraints.next().is_some());
    assert!(constraints.next().is_none());
}

#[test]
fn the_three_structures_agree() {
    let mut graph = Graph::new();
    for (variable, constraint) in [(0, 3), (2, 1), (2, 3), (1, 0), (0, 0)] {
        graph.insert_edge(Edge::new(variable, constraint));
    }
    graph.remove_edge(Edge::new(2, 1));

    for variable in 0..4 {
        for constraint in 0..5 {
            let edge = graph.contains_edge(Edge::new(variable, constraint));
            let mut variables = graph.variables();
            let mut seen_by_variable = false;
            while let Some(node) = variables.next() {
                if node.label() == variable {
                    seen_by_variable = node.has_neighbor(constraint);
                }
            }
            let mut constraints = graph.constraints();
            let mut seen_by_constraint = false;
            while let Some(node) = constraints.next() {
                if node.label() == constraint {
                    seen_by_constraint = node.has_neighbor(variable);
                }
            }
            assert_eq!(edge, seen_by_variable);
            assert_eq!(edge, seen_by_constraint);
        }
    }
}

#[test]
fn a_clone_is_equal_and_independent() {
    let mut graph = Graph::new();
    graph.insert_edge(Edge::new(0, 1));
    graph.insert_edge(Edge::new(1, 0));
    let mut copy = graph.clone();
    assert_eq!(copy, graph);
    assert_eq!(copy.edges(), graph.edges());

    copy.insert_edge(Edge::new(1, 1));
    assert_ne!(copy, graph);
    assert_eq!(graph.number_of_edges(), 2);
    assert_eq!(copy.number_of_edges(), 3);
}

#[test]
fn a_graph_starts_on_the_nodes_of_its_sampler() {
    let sampler = Sampler::builder()
        .number_of_variables(6)
        .number_of_constraints(4)
        .variable_degree(2)
        .constraint_degree(3)
        .build()
        .unwrap();
    let mut graph = Graph::from_sampler(&sampler);
    assert_eq!(graph.number_of_variables(), 6);
    assert_eq!(graph.number_of_constraints(), 4);
    assert_eq!(graph.number_of_edges(), 0);
    let mut variables = graph.variables();
    while let Some(variable) = variables.next() {
        assert_eq!(variable.degree(), 0);
    }

    assert!(graph.insert_edge(Edge::new(5, 3)));
    assert_eq!(graph.number_of_variables(), 6);
    assert_eq!(graph.number_of_constraints(), 4);
    assert!(graph.insert_edge(Edge::new(6, 3)));
    assert_eq!(graph.number_of_variables(), 7);
    assert_eq!(graph.number_of_constraints(), 4);
}
