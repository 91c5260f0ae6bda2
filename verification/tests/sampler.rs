use bigs::builder::Builder;
use bigs::error::InvalidParameters;
use bigs::graph::{Edge, Graph};
use bigs::sample::Sample;
use bigs::stubs::make_stubs;
use bigs::Sampler;
use rand::SeedableRng;
use rand_chacha::ChaCha20Rng;

fn sampler(variables: usize, constraints: usize, variable_degree: usize, constraint_degree: usize) -> Sampler {
    Sampler::builder()
        .number_of_variables(variables)
        .number_of_constraints(constraints)
        .variable_degree(variable_degree)
        .constraint_degree(constraint_degree)
        .build()
        .unwrap()
}

fn assert_regular(graph: &Graph, sampler: &Sampler) {
    assert_eq!(graph.number_of_variables(), sampler.number_of_variables());
    assert_eq!(graph.number_of_constraints(), sampler.number_of_constraints());
    assert_eq!(graph.number_of_edges(), sampler.number_of_edges());
    let mut variables = graph.variables();
    while let Some(variable) = variables.next() {
        assert_eq!(variable.degree(), sampler.variable_degree());
    }
    let mut constraints = graph.constraints();
    while let Some(constraint) = constraints.next() {
        assert_eq!(constraint.degree(), sampler.constraint_degree());
    }
    let edges = graph.edges();
    for (place, edge) in edges.iter().enumerate() {
        assert!(!edges[..place].contains(edge));
    }
}

#[test]
fn a_builder_starts_at_zero() {
    let sampler = Sampler::builder().build().unwrap();
    assert_eq!(sampler.number_of_variables(), 0);
    assert_eq!(sampler.number_of_constraints(), 0);
    assert_eq!(sampler.variable_degree(), 0);
    assert_eq!(sampler.constraint_degree(), 0);
    assert_eq!(sampler.number_of_edges(), 0);

    let other = Builder::default().build().unwrap();
    assert_eq!(other.number_of_variables(), 0);
}

#[test]
fn a_sampler_keeps_its_parameters() {
    let sampler = sampler(10, 8, 4, 5);
    assert_eq!(sampler.number_of_variables(), 10);
    assert_eq!(sampler.number_of_constraints(), 8);
    assert_eq!(sampler.variable_degree(), 4);
    assert_eq!(sampler.constraint_degree(), 5);
    assert_eq!(sampler.number_of_edges(), 40);
}

#[test]
fn the_last_setting_counts() {
    let mut builder = Sampler::builder();
    builder.number_of_variables(3).variable_degree(7);
    builder.number_of_variables(6).variable_degree(2);
    builder.number_of_constraints(4).constraint_degree(3);
    let sampler = builder.build().unwrap();
    assert_eq!(sampler.number_of_variables(), 6);
    assert_eq!(sampler.variable_degree(), 2);
    assert_eq!(sampler.number_of_constraints(), 4);
    assert_eq!(sampler.constraint_degree(), 3);
    assert_eq!(sampler.number_of_edges(), 12);
}

#[test]
fn the_error_holds_the_four_parameters() {
    let error = Sampler::builder()
        .number_of_variables(10)
        .number_of_constraints(11)
        .variable_degree(3)
        .constraint_degree(2)
        .build()
        .unwrap_err();
    assert_eq!(
        error,
        InvalidParameters {
            number_of_variables: 10,
            number_of_constraints: 11,
            variable_degree: 3,
            constraint_degree: 2,
        }
    );
}

#[test]
fn the_error_says_what_was_refused() {
    let error = InvalidParameters {
        number_of_variables: 10,
        number_of_constraints: 10,
        variable_degree: 3,
        constraint_degree: 2,
    };
    assert_eq!(
        error.to_string(),
        "can't sample a graph with 10 variables of degree 3 and 10 constraints of degree 2"
    );
    let other = InvalidParameters {
        number_of_variables: 0,
        number_of_constraints: 1234567890,
        variable_degree: 907,
        constraint_degree: 5,
    };
    assert_eq!(
        other.to_string(),
        "can't sample a graph with 0 variables of degree 907 and 1234567890 constraints of degree 5"
    );
}

#[test]
fn products_are_compared_without_wrapping() {
    let half = 1usize << (usize::BITS / 2);
    let wrapped = Sampler::builder()
        .number_of_variables(half)
        .variable_degree(half)
        .number_of_constraints(0)
        .constraint_degree(0)
        .build();
    assert!(wrapped.is_err());
}

#[test]
fn the_scaling_factor_ties_both_counts() {
    assert_eq!(sampler(10, 8, 4, 5).scaling_factor(), Some(2));
    assert_eq!(sampler(9, 15, 5, 3).scaling_factor(), Some(3));
    assert_eq!(sampler(3, 3, 2, 2).scaling_factor(), None);
    assert_eq!(sampler(0, 0, 0, 0).scaling_factor(), Some(0));
    assert_eq!(sampler(0, 0, 4, 5).scaling_factor(), Some(0));
    assert_eq!(sampler(3, 0, 0, 5).scaling_factor(), None);
    assert_eq!(sampler(0, 6, 3, 0).scaling_factor(), Some(2));
    assert_eq!(sampler(0, 7, 3, 0).scaling_factor(), None);
    assert_eq!(sampler(5, 0, 0, 0).scaling_factor(), None);
}

#[test]
fn stubs_name_each_node_as_often_as_its_degree() {
    assert_eq!(make_stubs(3, 2), vec![0, 0, 1, 1, 2, 2]);
    assert_eq!(make_stubs(4, 1), vec![0, 1, 2, 3]);
    assert_eq!(make_stubs(0, 5), Vec::<usize>::new());
    assert_eq!(make_stubs(5, 0), Vec::<usize>::new());
}

#[test]
fn a_swap_exchanges_the_constraints() {
    let (first, second) = Sample::swap(Edge::new(1, 2), Edge::new(3, 4));
    assert_eq!(first, Edge::new(1, 4));
    assert_eq!(second, Edge::new(3, 2));
}

#[test]
fn the_first_edge_that_allows_a_swap_is_found() {
    let mut graph = Graph::new();
    graph.insert_edge(Edge::new(0, 0));
    graph.insert_edge(Edge::new(0, 1));
    graph.insert_edge(Edge::new(1, 1));
    graph.insert_edge(Edge::new(2, 2));

    // (0, 0) shares its variable with the target, (1, 1) would give (0, 1) again.
    assert_eq!(
        Sample::find_edge_to_swap(Edge::new(0, 1), &graph),
        Some(Edge::new(2, 2))
    );
    // (1, 1) would give (0, 1), which the graph holds.
    assert_eq!(
        Sample::find_edge_to_swap(Edge::new(0, 0), &graph),
        Some(Edge::new(2, 2))
    );

    let mut diagonal = Graph::new();
    diagonal.insert_edge(Edge::new(0, 0));
    diagonal.insert_edge(Edge::new(1, 1));
    diagonal.insert_edge(Edge::new(2, 2));
    assert_eq!(
        Sample::find_edge_to_swap(Edge::new(0, 0), &diagonal),
        Some(Edge::new(1, 1))
    );
    assert_eq!(
        Sample::find_edge_to_swap(Edge::new(1, 1), &diagonal),
        Some(Edge::new(0, 0))
    );

    let mut single = Graph::new();
    single.insert_edge(Edge::new(0, 0));
    assert_eq!(Sample::find_edge_to_swap(Edge::new(0, 0), &single), None);
    assert_eq!(Sample::find_edge_to_swap(Edge::new(0, 0), &Graph::new()), None);
}

#[test]
fn a_pairing_without_collision_is_taken_as_it_is() {
    let sampler = sampler(3, 3, 1, 1);
    let graph = Sample::from_stubs(&sampler, vec![2, 0, 1], vec![1, 0, 2])
        .generate()
        .unwrap();
    assert_eq!(
        graph.edges(),
        vec![Edge::new(2, 1), Edge::new(0, 0), Edge::new(1, 2)]
    );
    assert_regular(&graph, &sampler);
}

#[test]
fn collisions_are_repaired_by_swaps() {
    let sampler = sampler(2, 2, 2, 2);
    let graph = Sample::from_stubs(&sampler, vec![0, 0, 1, 1], vec![0, 0, 1, 1])
        .generate()
        .unwrap();
    assert_eq!(
        graph.edges(),
        vec![
            Edge::new(1, 1),
            Edge::new(1, 0),
            Edge::new(0, 1),
            Edge::new(0, 0)
        ]
    );
    assert_regular(&graph, &sampler);
}

#[test]
fn pairing_stops_with_the_shorter_side() {
    let sampler = sampler(3, 3, 1, 1);
    let graph = Sample::from_stubs(&sampler, vec![0, 1, 2], vec![2])
        .generate()
        .unwrap();
    assert_eq!(graph.edges(), vec![Edge::new(0, 2)]);
    assert_eq!(graph.number_of_variables(), 3);
    assert_eq!(graph.number_of_constraints(), 3);
}

#[test]
fn a_repair_without_any_swap_left_is_stuck() {
    let sampler = sampler(1, 1, 2, 2);
    assert!(Sample::from_stubs(&sampler, vec![0, 0], vec![0, 0])
        .generate()
        .is_none());

    // Two variables that both need two of the one constraint.
    let impossible = self::sampler(2, 1, 2, 4);
    assert!(
        Sample::from_stubs(&impossible, vec![0, 1, 0, 1], vec![0, 0, 0, 0])
            .generate()
            .is_none()
    );
}

#[test]
fn complete_graphs_are_drawn() {
    let complete = sampler(2, 3, 3, 2);
    let graph = Sample::from_stubs(&complete, vec![0, 1, 0, 1, 0, 1], vec![0, 0, 1, 1, 2, 2])
        .generate()
        .unwrap();
    assert_regular(&graph, &complete);
    for (variables, constraints) in [(3, 2), (4, 4), (1, 5), (5, 1)] {
        let complete = sampler(variables, constraints, constraints, variables);
        for seed in 0..20 {
            let mut rng = ChaCha20Rng::seed_from_u64(seed);
            let graph = complete.sample_with(&mut rng);
            assert_regular(&graph, &complete);
            for variable in 0..variables {
                for constraint in 0..constraints {
                    assert!(graph.contains_edge(Edge::new(variable, constraint)));
                }
            }
        }
    }
}

#[test]
fn a_graph_is_drawn_where_one_exists() {
    let sampler = sampler(10, 8, 4, 5);
    let graph = sampler
        .try_sample_with(&mut ChaCha20Rng::seed_from_u64(3))
        .unwrap();
    assert_regular(&graph, &sampler);
    assert_eq!(
        graph,
        sampler.sample_with(&mut ChaCha20Rng::seed_from_u64(3))
    );

    let empty = self::sampler(3, 0, 0, 5);
    assert!(empty
        .try_sample_with(&mut ChaCha20Rng::seed_from_u64(3))
        .is_some());

    // One constraint cannot be next to each of two variables twice.
    let crowded = self::sampler(2, 1, 2, 4);
    assert!(crowded
        .try_sample_with(&mut ChaCha20Rng::seed_from_u64(3))
        .is_none());
    let loop_only = self::sampler(1, 1, 2, 2);
    assert!(loop_only
        .try_sample_with(&mut ChaCha20Rng::seed_from_u64(3))
        .is_none());

    // More stubs than the machine can count.
    let huge = self::sampler(usize::MAX, usize::MAX, 2, 2);
    assert!(huge
        .try_sample_with(&mut ChaCha20Rng::seed_from_u64(3))
        .is_none());
}

#[test]
fn the_same_pairing_gives_the_same_graph() {
    let sampler = sampler(4, 4, 2, 2);
    let variables = vec![3, 0, 0, 1, 2, 3, 1, 2];
    let constraints = vec![1, 1, 1, 3, 0, 2, 3, 2, 0];
    let graph = Sample::from_stubs(&sampler, variables.clone(), constraints.clone()).generate();
    let other = Sample::from_stubs(&sampler, variables, constraints).generate();
    assert_eq!(graph, other);
    assert_eq!(
        graph.map(|graph| graph.edges()),
        other.map(|graph| graph.edges())
    );
}

#[test]
fn without_stubs_the_graph_has_no_edge() {
    let sampler = sampler(3, 0, 0, 5);
    let graph = sampler.sample_with(&mut ChaCha20Rng::seed_from_u64(0));
    assert_eq!(graph.number_of_variables(), 3);
    assert_eq!(graph.number_of_constraints(), 0);
    assert_eq!(graph.number_of_edges(), 0);

    let empty = self::sampler(0, 0, 0, 0);
    let graph = empty.sample_with(&mut ChaCha20Rng::seed_from_u64(0));
    assert_eq!(graph, Graph::new());
}

#[test]
fn a_matching_is_always_drawn() {
    let sampler = sampler(6, 6, 1, 1);
    for seed in 0..50 {
        let graph = sampler.sample_with(&mut ChaCha20Rng::seed_from_u64(seed));
        assert_regular(&graph, &sampler);
    }
    let star = self::sampler(5, 1, 1, 5);
    for seed in 0..50 {
        let graph = star.sample_with(&mut ChaCha20Rng::seed_from_u64(seed));
        assert_regular(&graph, &star);
    }
}

#[test]
fn drawn_graphs_are_regular_and_simple() {
    for (variables, constraints, variable_degree, constraint_degree) in
        [(10, 8, 4, 5), (9, 15, 5, 3), (10, 6, 3, 5), (4, 4, 4, 4), (12, 12, 3, 3)]
    {
        let sampler = sampler(variables, constraints, variable_degree, constraint_degree);
        for seed in 0..20 {
            let mut rng = ChaCha20Rng::seed_from_u64(seed);
            let graph = sampler.sample_with(&mut rng);
            assert_regular(&graph, &sampler);
            assert_eq!(graph.number_of_edges(), variables * variable_degree);
            assert_eq!(graph.number_of_edges(), constraints * constraint_degree);
        }
    }
}

#[test]
fn the_same_seed_gives_the_same_graph() {
    let sampler = sampler(10, 8, 4, 5);
    for seed in 0..10 {
        let graph = sampler.sample_with(&mut ChaCha20Rng::seed_from_u64(seed));
        let other = sampler.sample_with(&mut ChaCha20Rng::seed_from_u64(seed));
        assert_eq!(graph, other);
        assert_eq!(graph.edges(), other.edges());
    }
}

#[test]
fn the_generator_shuffles_the_stubs() {
    let sampler = sampler(10, 8, 4, 5);
    let unshuffled = Sample::from_stubs(&sampler, make_stubs(10, 4), make_stubs(8, 5))
        .generate()
        .unwrap();
    let mut differs = false;
    for seed in 0..10 {
        let graph = sampler.sample_with(&mut ChaCha20Rng::seed_from_u64(seed));
        differs = differs || graph != unshuffled;
    }
    assert!(differs);
}
