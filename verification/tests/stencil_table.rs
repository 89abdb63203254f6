use opensubdiv::far::{
    Channel, ConstructionError, InterpolationMode, Level, LevelScope, Mask, Options, StencilTable,
    TopologyRefiner, Weight,
};
use opensubdiv::Index;

fn empty_channel() -> Channel {
    Channel { coarse_vertices: 0, levels: Vec::new() }
}

fn vertex_refiner(coarse_vertices: u32, levels: Vec<Level>) -> TopologyRefiner {
    TopologyRefiner {
        vertex: Channel { coarse_vertices, levels },
        varying: empty_channel(),
        face_varying: empty_channel(),
    }
}

fn options(level_scope: LevelScope, factorize: bool, generate_offsets: bool) -> Options {
    Options {
        interpolation_mode: InterpolationMode::Vertex,
        level_scope,
        factorize_intermediate_levels: factorize,
        generate_offsets,
    }
}

/// Three coarse vertices in a row; level one holds the two midpoints, level
/// two the midpoint of those.
fn midpoint_chain() -> TopologyRefiner {
    let level_one =
        Level { denominator: 2, masks: vec![vec![(0, 1), (1, 1)], vec![(1, 1), (2, 1)]] };
    let level_two = Level { denominator: 2, masks: vec![vec![(0, 1), (1, 1)]] };
    vertex_refiner(3, vec![level_one, level_two])
}

/// A grid of three by three vertices, four quads around vertex 4, refined
/// once by the Catmull-Clark rules, with sixty-fourths as weights.
fn quad_grid() -> TopologyRefiner {
    let corner = |v: Index| -> Mask { vec![(v, 64)] };
    let crease = |a: Index, v: Index, b: Index| -> Mask { vec![(a, 8), (v, 48), (b, 8)] };
    let boundary_edge = |a: Index, b: Index| -> Mask { vec![(a, 32), (b, 32)] };
    let inner_edge = |a: Index, b: Index, others: [Index; 4]| -> Mask {
        vec![(a, 24), (b, 24), (others[0], 4), (others[1], 4), (others[2], 4), (others[3], 4)]
    };
    let face = |q: [Index; 4]| -> Mask { vec![(q[0], 16), (q[1], 16), (q[2], 16), (q[3], 16)] };
    let masks: Vec<Mask> = vec![
        // the nine vertices
        corner(0),
        crease(0, 1, 2),
        corner(2),
        crease(0, 3, 6),
        vec![(4, 36), (1, 6), (3, 6), (5, 6), (7, 6), (0, 1), (2, 1), (6, 1), (8, 1)],
        crease(2, 5, 8),
        corner(6),
        crease(6, 7, 8),
        corner(8),
        // the twelve edges
        boundary_edge(0, 1),
        boundary_edge(1, 2),
        boundary_edge(0, 3),
        inner_edge(1, 4, [0, 3, 2, 5]),
        boundary_edge(2, 5),
        inner_edge(3, 4, [0, 1, 6, 7]),
        inner_edge(4, 5, [1, 2, 7, 8]),
        boundary_edge(3, 6),
        inner_edge(4, 7, [3, 6, 5, 8]),
        boundary_edge(5, 8),
        boundary_edge(6, 7),
        boundary_edge(7, 8),
        // the four faces
        face([0, 1, 4, 3]),
        face([1, 2, 5, 4]),
        face([3, 4, 7, 6]),
        face([4, 5, 8, 7]),
    ];
    vertex_refiner(9, vec![Level { denominator: 64, masks }])
}

fn terms(table: &StencilTable, i: Index) -> Vec<(Index, Weight)> {
    let stencil = table.stencil(i).expect("stencil in range");
    stencil.indices().iter().copied().zip(stencil.weights().iter().copied()).collect()
}

fn check_invariants(table: &StencilTable) {
    let sizes = table.sizes();
    assert_eq!(sizes.len(), table.len() as usize);
    let total: usize = sizes.iter().map(|s| *s as usize).sum();
    assert_eq!(table.control_indices().len(), total);
    assert_eq!(table.weights().len(), total);
    for index in table.control_indices() {
        assert!(*index < table.control_vertices_len());
    }
    let mut start = 0usize;
    for i in 0..table.len() {
        let stencil = table.stencil(i).expect("stencil in range");
        let size = sizes[i as usize] as usize;
        assert_eq!(stencil.indices().len(), size);
        assert_eq!(stencil.weights().len(), size);
        assert_eq!(stencil.indices(), &table.control_indices()[start..start + size]);
        assert_eq!(stencil.weights(), &table.weights()[start..start + size]);
        let sum: u128 = stencil.weights().iter().map(|w| *w as u128).sum();
        assert_eq!(sum, table.denominator() as u128);
        for pair in stencil.indices().windows(2) {
            assert!(pair[0] < pair[1]);
        }
        for weight in stencil.weights() {
            assert!(*weight > 0);
        }
        if !table.offsets().is_empty() {
            assert_eq!(table.offsets()[i as usize] as usize, start);
        }
        start += size;
    }
    assert!(table.offsets().is_empty() || table.offsets().len() == table.len() as usize);
    assert!(table.stencil(table.len()).is_none());
}

#[test]
fn default_options_are_vertex_cumulative_factorized_without_offsets() {
    let o = Options::default();
    assert_eq!(o.interpolation_mode, InterpolationMode::Vertex);
    assert_eq!(o.level_scope, LevelScope::AllLevelsCumulative);
    assert!(o.factorize_intermediate_levels);
    assert!(!o.generate_offsets);
}

#[test]
fn base_case_is_one_unit_stencil_per_coarse_vertex() {
    for scope in [LevelScope::LastLevelOnly, LevelScope::AllLevelsCumulative] {
        let refiner = vertex_refiner(5, Vec::new());
        let table = StencilTable::new(&refiner, options(scope, true, true)).unwrap();
        assert_eq!(table.len(), 5);
        assert_eq!(table.control_vertices_len(), 5);
        assert_eq!(table.denominator(), 1);
        assert_eq!(table.sizes(), &[1, 1, 1, 1, 1]);
        assert_eq!(table.control_indices(), &[0, 1, 2, 3, 4]);
        assert_eq!(table.weights(), &[1, 1, 1, 1, 1]);
        assert_eq!(table.offsets(), &[0, 1, 2, 3, 4]);
        check_invariants(&table);
    }
}

#[test]
fn stencil_views_have_the_length_of_their_size() {
    let table = StencilTable::new(&quad_grid(), Options::default()).unwrap();
    assert_eq!(table.len(), 9 + 25);
    for i in 0..table.len() {
        let stencil = table.stencil(i).unwrap();
        assert_eq!(stencil.indices().len(), table.sizes()[i as usize] as usize);
        assert_eq!(stencil.weights().len(), table.sizes()[i as usize] as usize);
    }
    check_invariants(&table);
}

#[test]
fn stencil_is_absent_from_the_count_on() {
    let table = StencilTable::new(&midpoint_chain(), Options::default()).unwrap();
    assert!(table.stencil(0).is_some());
    assert!(table.stencil(table.len() - 1).is_some());
    assert!(table.stencil(table.len()).is_none());
    assert!(table.stencil(table.len() + 1).is_none());
    assert!(table.stencil(Index::MAX).is_none());
}

#[test]
fn weights_of_every_stencil_add_up_to_the_denominator() {
    for factorize in [true, false] {
        for scope in [LevelScope::LastLevelOnly, LevelScope::AllLevelsCumulative] {
            let table =
                StencilTable::new(&midpoint_chain(), options(scope, factorize, false)).unwrap();
            assert_eq!(table.denominator(), 4);
            check_invariants(&table);
            let table = StencilTable::new(&quad_grid(), options(scope, factorize, false)).unwrap();
            assert_eq!(table.denominator(), 64);
            check_invariants(&table);
        }
    }
}

#[test]
fn control_indices_stay_below_the_control_vertex_count() {
    let table = StencilTable::new(&quad_grid(), Options::default()).unwrap();
    assert_eq!(table.control_vertices_len(), 9);
    assert!(table.control_indices().iter().all(|k| *k < 9));
    assert!(table.control_indices().iter().any(|k| *k == 8));
}

#[test]
fn offsets_are_the_running_sums_of_the_sizes() {
    let table = StencilTable::new(
        &midpoint_chain(),
        options(LevelScope::AllLevelsCumulative, true, true),
    ).unwrap();
    assert_eq!(table.sizes(), &[1, 1, 1, 2, 2, 3]);
    assert_eq!(table.offsets(), &[0, 1, 2, 3, 5, 7]);
    check_invariants(&table);
}

#[test]
fn offsets_are_empty_unless_asked_for() {
    let table = StencilTable::new(
        &midpoint_chain(),
        options(LevelScope::AllLevelsCumulative, true, false),
    ).unwrap();
    assert!(table.offsets().is_empty());
    // stencils are found all the same
    assert_eq!(terms(&table, 5), vec![(0, 1), (1, 2), (2, 1)]);
    assert_eq!(terms(&table, 3), vec![(0, 2), (1, 2)]);
}

#[test]
fn shared_coarse_vertex_is_merged_into_one_term() {
    for factorize in [true, false] {
        let table = StencilTable::new(
            &midpoint_chain(),
            options(LevelScope::LastLevelOnly, factorize, true),
        ).unwrap();
        assert_eq!(table.len(), 1);
        assert_eq!(table.denominator(), 4);
        let stencil = table.stencil(0).unwrap();
        assert_eq!(stencil.indices(), &[0, 1, 2]);
        // vertex 1 is reached through both midpoints: 1 * 1 + 1 * 1
        assert_eq!(stencil.weights(), &[1, 2, 1]);
        assert_eq!(stencil.indices().iter().filter(|k| **k == 1).count(), 1);
    }
}

#[test]
fn cumulative_table_holds_every_level_over_one_denominator() {
    for factorize in [true, false] {
        let table = StencilTable::new(
            &midpoint_chain(),
            options(LevelScope::AllLevelsCumulative, factorize, false),
        ).unwrap();
        assert_eq!(table.len(), 6);
        assert_eq!(table.denominator(), 4);
        assert_eq!(terms(&table, 0), vec![(0, 4)]);
        assert_eq!(terms(&table, 1), vec![(1, 4)]);
        assert_eq!(terms(&table, 2), vec![(2, 4)]);
        assert_eq!(terms(&table, 3), vec![(0, 2), (1, 2)]);
        assert_eq!(terms(&table, 4), vec![(1, 2), (2, 2)]);
        assert_eq!(terms(&table, 5), vec![(0, 1), (1, 2), (2, 1)]);
    }
}

#[test]
fn factorizing_does_not_change_the_table() {
    for scope in [LevelScope::LastLevelOnly, LevelScope::AllLevelsCumulative] {
        let eager = StencilTable::new(&quad_grid(), options(scope, true, true)).unwrap();
        let late = StencilTable::new(&quad_grid(), options(scope, false, true)).unwrap();
        assert_eq!(eager.sizes(), late.sizes());
        assert_eq!(eager.offsets(), late.offsets());
        assert_eq!(eager.control_indices(), late.control_indices());
        assert_eq!(eager.weights(), late.weights());
        assert_eq!(eager.denominator(), late.denominator());
    }
}

#[test]
fn interior_vertex_of_a_quad_grid_blends_its_whole_neighbourhood() {
    let table = StencilTable::new(
        &quad_grid(),
        options(LevelScope::LastLevelOnly, true, false),
    ).unwrap();
    assert_eq!(table.len(), 25);
    let stencil = table.stencil(4).unwrap();
    let sum: u64 = stencil.weights().iter().sum();
    assert_eq!(sum, table.denominator());
    assert_eq!(stencil.indices(), &[0, 1, 2, 3, 4, 5, 6, 7, 8]);
    // a face point blends the corners of its face only
    assert_eq!(terms(&table, 21), vec![(0, 16), (1, 16), (3, 16), (4, 16)]);
}

#[test]
fn repeated_and_unordered_mask_terms_are_merged_and_sorted() {
    let level = Level { denominator: 10, masks: vec![vec![(2, 3), (0, 1), (2, 4), (1, 2)]] };
    let refiner = vertex_refiner(3, vec![level]);
    for factorize in [true, false] {
        let table = StencilTable::new(
            &refiner,
            options(LevelScope::LastLevelOnly, factorize, false),
        ).unwrap();
        assert_eq!(terms(&table, 0), vec![(0, 1), (1, 2), (2, 7)]);
    }
}

#[test]
fn terms_of_weight_zero_are_left_out() {
    let level = Level { denominator: 2, masks: vec![vec![(0, 2), (1, 0)], vec![(1, 1), (0, 1)]] };
    let refiner = vertex_refiner(2, vec![level]);
    for factorize in [true, false] {
        let table = StencilTable::new(
            &refiner,
            options(LevelScope::LastLevelOnly, factorize, true),
        ).unwrap();
        assert_eq!(table.sizes(), &[1, 2]);
        assert_eq!(terms(&table, 0), vec![(0, 2)]);
        assert_eq!(terms(&table, 1), vec![(0, 1), (1, 1)]);
        check_invariants(&table);
    }
}

#[test]
fn levels_with_different_denominators_multiply_up() {
    let level_one = Level { denominator: 3, masks: vec![vec![(0, 1), (1, 2)], vec![(1, 3)]] };
    let level_two = Level { denominator: 5, masks: vec![vec![(0, 2), (1, 3)]] };
    let refiner = vertex_refiner(2, vec![level_one, level_two]);
    let table = StencilTable::new(&refiner, Options::default()).unwrap();
    assert_eq!(table.denominator(), 15);
    assert_eq!(terms(&table, 0), vec![(0, 15)]);
    assert_eq!(terms(&table, 1), vec![(1, 15)]);
    // level one is scaled by the denominator of level two
    assert_eq!(terms(&table, 2), vec![(0, 5), (1, 10)]);
    assert_eq!(terms(&table, 3), vec![(1, 15)]);
    // 2 * (1, 2) + 3 * (0, 3)
    assert_eq!(terms(&table, 4), vec![(0, 2), (1, 13)]);
    check_invariants(&table);
}

#[test]
fn last_level_of_an_empty_level_is_an_empty_table() {
    let refiner = vertex_refiner(2, vec![Level { denominator: 1, masks: Vec::new() }]);
    let table = StencilTable::new(
        &refiner,
        options(LevelScope::LastLevelOnly, true, true),
    ).unwrap();
    assert_eq!(table.len(), 0);
    assert_eq!(table.control_vertices_len(), 2);
    assert!(table.stencil(0).is_none());
    assert!(table.sizes().is_empty());
    assert!(table.offsets().is_empty());
    assert!(table.control_indices().is_empty());
    assert!(table.weights().is_empty());
}

#[test]
fn interpolation_mode_picks_the_channel() {
    let refiner = TopologyRefiner {
        vertex: Channel { coarse_vertices: 2, levels: Vec::new() },
        varying: Channel {
            coarse_vertices: 3,
            levels: vec![Level { denominator: 2, masks: vec![vec![(0, 1), (2, 1)]] }],
        },
        face_varying: empty_channel(),
    };
    let mut o = Options::default();
    let table = StencilTable::new(&refiner, o).unwrap();
    assert_eq!(table.len(), 2);
    assert_eq!(table.control_vertices_len(), 2);
    o.interpolation_mode = InterpolationMode::Varying;
    let table = StencilTable::new(&refiner, o).unwrap();
    assert_eq!(table.len(), 4);
    assert_eq!(table.control_vertices_len(), 3);
    assert_eq!(terms(&table, 3), vec![(0, 1), (2, 1)]);
    o.interpolation_mode = InterpolationMode::FaceVarying;
    assert_eq!(StencilTable::new(&refiner, o).err(), Some(ConstructionError::EmptyRefiner));
}

#[test]
fn refiner_without_vertices_is_refused() {
    let refiner = vertex_refiner(0, Vec::new());
    assert_eq!(
        StencilTable::new(&refiner, Options::default()).err(),
        Some(ConstructionError::EmptyRefiner)
    );
    // also where it is inconsistent besides
    let refiner = vertex_refiner(0, vec![Level { denominator: 0, masks: Vec::new() }]);
    assert_eq!(
        StencilTable::new(&refiner, Options::default()).err(),
        Some(ConstructionError::EmptyRefiner)
    );
}

#[test]
fn mask_that_names_a_missing_parent_is_refused() {
    let level = Level { denominator: 2, masks: vec![vec![(0, 1), (2, 1)]] };
    let refiner = vertex_refiner(2, vec![level]);
    assert_eq!(
        StencilTable::new(&refiner, Options::default()).err(),
        Some(ConstructionError::InconsistentRefiner)
    );
    // the parents of the second level are the vertices of the first
    let level_one = Level { denominator: 1, masks: vec![vec![(2, 1)]] };
    let level_two = Level { denominator: 1, masks: vec![vec![(1, 1)]] };
    let refiner = vertex_refiner(3, vec![level_one, level_two]);
    assert_eq!(
        StencilTable::new(&refiner, Options::default()).err(),
        Some(ConstructionError::InconsistentRefiner)
    );
}

#[test]
fn mask_whose_weights_miss_the_denominator_is_refused() {
    for mask in [vec![(0, 1), (1, 2)], vec![(0, 1)], Vec::new(), vec![(0, u64::MAX), (1, 3)]] {
        let refiner = vertex_refiner(2, vec![Level { denominator: 2, masks: vec![mask] }]);
        assert_eq!(
            StencilTable::new(&refiner, Options::default()).err(),
            Some(ConstructionError::InconsistentRefiner)
        );
    }
}

#[test]
fn level_with_denominator_zero_is_refused() {
    let refiner = vertex_refiner(2, vec![Level { denominator: 0, masks: Vec::new() }]);
    assert_eq!(
        StencilTable::new(&refiner, Options::default()).err(),
        Some(ConstructionError::InconsistentRefiner)
    );
}

#[test]
fn denominators_that_outgrow_a_weight_are_refused() {
    let level = || Level { denominator: 1 << 32, masks: vec![vec![(0, 1 << 32)]] };
    let refiner = vertex_refiner(1, vec![level(), level()]);
    for scope in [LevelScope::LastLevelOnly, LevelScope::AllLevelsCumulative] {
        assert_eq!(
            StencilTable::new(&refiner, options(scope, true, false)).err(),
            Some(ConstructionError::WeightRange)
        );
    }
    // the largest product that fits
    let last = Level { denominator: (1 << 32) - 1, masks: vec![vec![(0, (1 << 32) - 1)]] };
    let refiner = vertex_refiner(1, vec![level(), last]);
    let table = StencilTable::new(&refiner, Options::default()).unwrap();
    assert_eq!(table.denominator(), u64::MAX - (1 << 32) + 1);
    check_invariants(&table);
}

#[test]
fn evaluation_is_the_weighted_sum_of_the_control_values() {
    let table = StencilTable::new(
        &midpoint_chain(),
        options(LevelScope::LastLevelOnly, true, false),
    ).unwrap();
    // (1 * 10 + 2 * (-20) + 1 * 40) over 4
    assert_eq!(table.evaluate(0, &[10, -20, 40]), Some(10));
    assert_eq!(table.evaluate(0, &[4, 4, 4]), Some(4 * 4));
    assert_eq!(
        table.evaluate(0, &[i64::MIN, i64::MIN, i64::MIN]),
        Some(4 * (i64::MIN as i128))
    );
}

#[test]
fn evaluation_of_the_identity_buffer_is_the_weighted_index_sum() {
    let table = StencilTable::new(&quad_grid(), Options::default()).unwrap();
    let buffer: Vec<i64> = (0..table.control_vertices_len() as i64).collect();
    for i in 0..table.len() {
        let stencil = table.stencil(i).unwrap();
        let mut expected: i128 = 0;
        for j in 0..stencil.indices().len() {
            expected += stencil.weights()[j] as i128 * stencil.indices()[j] as i128;
        }
        assert_eq!(table.evaluate(i, &buffer), Some(expected));
    }
    // the refined interior vertex stays where the coarse one is
    assert_eq!(table.evaluate(9 + 4, &buffer), Some(4 * 64));
}

#[test]
fn evaluation_needs_a_stencil_and_a_buffer_of_the_right_length() {
    let table = StencilTable::new(&midpoint_chain(), Options::default()).unwrap();
    assert!(table.evaluate(0, &[1, 2, 3]).is_some());
    assert_eq!(table.evaluate(table.len(), &[1, 2, 3]), None);
    assert_eq!(table.evaluate(0, &[1, 2]), None);
    assert_eq!(table.evaluate(0, &[1, 2, 3, 4]), None);
    assert_eq!(table.evaluate(0, &[]), None);
}

#[test]
fn consistency_of_a_channel_can_be_asked_for() {
    assert!(midpoint_chain().vertex.is_consistent());
    assert!(quad_grid().vertex.is_consistent());
    assert!(empty_channel().is_consistent());
    let broken = Channel {
        coarse_vertices: 1,
        levels: vec![Level { denominator: 2, masks: vec![vec![(0, 1)]] }],
    };
    assert!(!broken.is_consistent());
}

#[test]
fn arrays_that_make_a_table_are_taken_as_they_are() {
    let table = StencilTable::from_arrays(
        3,
        4,
        vec![1, 2, 3],
        vec![0, 1, 3],
        vec![2, 0, 1, 0, 1, 2],
        vec![4, 2, 2, 1, 2, 1],
    ).expect("a table");
    assert_eq!(table.len(), 3);
    assert_eq!(table.control_vertices_len(), 3);
    assert_eq!(table.denominator(), 4);
    assert_eq!(table.sizes(), &[1, 2, 3]);
    assert_eq!(table.offsets(), &[0, 1, 3]);
    assert_eq!(table.control_indices(), &[2, 0, 1, 0, 1, 2]);
    assert_eq!(table.weights(), &[4, 2, 2, 1, 2, 1]);
    assert_eq!(terms(&table, 1), vec![(0, 2), (1, 2)]);
    assert_eq!(table.evaluate(2, &[8, -8, 100]), Some(8 - 16 + 100));
    // the same without offsets
    let table = StencilTable::from_arrays(
        3,
        4,
        vec![1, 2, 3],
        Vec::new(),
        vec![2, 0, 1, 0, 1, 2],
        vec![4, 2, 2, 1, 2, 1],
    ).expect("a table");
    assert!(table.offsets().is_empty());
    assert_eq!(terms(&table, 2), vec![(0, 1), (1, 2), (2, 1)]);
    // a term may repeat a vertex, weigh nothing, and come in any order
    let table =
        StencilTable::from_arrays(2, 3, vec![4], vec![0], vec![1, 0, 1, 0], vec![1, 0, 1, 1])
            .expect("a table");
    assert_eq!(table.evaluate(0, &[10, 20]), Some(20 + 20 + 10));
    // no stencils at all
    let table = StencilTable::from_arrays(0, 1, Vec::new(), Vec::new(), Vec::new(), Vec::new())
        .expect("a table");
    assert_eq!(table.len(), 0);
}

#[test]
fn arrays_that_break_an_invariant_make_no_table() {
    let from = |n: u32, d: u64, sizes: &[u32], offsets: &[u32], indices: &[u32], weights: &[u64]| {
        StencilTable::from_arrays(
            n,
            d,
            sizes.to_vec(),
            offsets.to_vec(),
            indices.to_vec(),
            weights.to_vec(),
        )
    };
    assert!(from(3, 4, &[1, 2], &[0, 1], &[2, 0, 1], &[4, 2, 2]).is_some());
    // denominator zero
    assert!(from(3, 0, &[], &[], &[], &[]).is_none());
    // fewer or more terms than the sizes add up to
    assert!(from(3, 4, &[1, 2], &[0, 1], &[2, 0], &[4, 2]).is_none());
    assert!(from(3, 4, &[1, 2], &[0, 1], &[2, 0, 1, 1], &[4, 2, 2, 0]).is_none());
    // indices and weights of different length
    assert!(from(3, 4, &[1, 2], &[0, 1], &[2, 0, 1], &[4, 2, 2, 0]).is_none());
    // offsets that are not the running sums, or not one for each stencil
    assert!(from(3, 4, &[1, 2], &[0, 2], &[2, 0, 1], &[4, 2, 2]).is_none());
    assert!(from(3, 4, &[1, 2], &[1, 1], &[2, 0, 1], &[4, 2, 2]).is_none());
    assert!(from(3, 4, &[1, 2], &[0], &[2, 0, 1], &[4, 2, 2]).is_none());
    assert!(from(3, 4, &[1, 2], &[0, 1, 3], &[2, 0, 1], &[4, 2, 2]).is_none());
    // an index that is no control vertex
    assert!(from(3, 4, &[1, 2], &[0, 1], &[2, 0, 3], &[4, 2, 2]).is_none());
    assert!(from(2, 4, &[1, 2], &[0, 1], &[2, 0, 1], &[4, 2, 2]).is_none());
    // weights that miss the denominator
    assert!(from(3, 4, &[1, 2], &[0, 1], &[2, 0, 1], &[4, 2, 1]).is_none());
    assert!(from(3, 4, &[1, 2], &[0, 1], &[2, 0, 1], &[4, 2, 3]).is_none());
    assert!(from(3, 4, &[1, 2], &[0, 1], &[2, 0, 1], &[3, 3, 2]).is_none());
    assert!(from(3, 4, &[1, 2], &[0, 1], &[2, 0, 1], &[4, u64::MAX, 5]).is_none());
    // an empty stencil weighs nothing
    assert!(from(3, 4, &[0], &[0], &[], &[]).is_none());
}

#[test]
fn built_table_survives_the_way_through_its_arrays() {
    let built = StencilTable::new(
        &quad_grid(),
        options(LevelScope::AllLevelsCumulative, true, true),
    ).unwrap();
    let copy = StencilTable::from_arrays(
        built.control_vertices_len(),
        built.denominator(),
        built.sizes().to_vec(),
        built.offsets().to_vec(),
        built.control_indices().to_vec(),
        built.weights().to_vec(),
    ).expect("a table");
    assert_eq!(copy.len(), built.len());
    for i in 0..built.len() {
        assert_eq!(terms(&copy, i), terms(&built, i));
    }
}

/// A closed curve of `n` vertices, refined `depth` times as a cubic
/// B-spline, with eighths as weights: every level doubles the vertices.
fn closed_curve(n: u32, depth: u32) -> TopologyRefiner {
    let mut levels = Vec::new();
    let mut count = n;
    for _ in 0..depth {
        let mut masks: Vec<Mask> = Vec::new();
        for i in 0..count {
            let before = (i + count - 1) % count;
            let after = (i + 1) % count;
            masks.push(vec![(before, 1), (i, 6), (after, 1)]);
            masks.push(vec![(i, 4), (after, 4)]);
        }
        levels.push(Level { denominator: 8, masks });
        count *= 2;
    }
    vertex_refiner(n, levels)
}

#[test]
fn closed_curve_refined_three_times() {
    let refiner = closed_curve(8, 3);
    let eager = StencilTable::new(
        &refiner,
        options(LevelScope::AllLevelsCumulative, true, true),
    ).unwrap();
    let late = StencilTable::new(
        &refiner,
        options(LevelScope::AllLevelsCumulative, false, true),
    ).unwrap();
    assert_eq!(eager.len(), 8 + 16 + 32 + 64);
    assert_eq!(eager.denominator(), 512);
    check_invariants(&eager);
    check_invariants(&late);
    assert_eq!(eager.sizes(), late.sizes());
    assert_eq!(eager.control_indices(), late.control_indices());
    assert_eq!(eager.weights(), late.weights());
    // first level, in sixty-fourths of the table's denominator
    assert_eq!(terms(&eager, 8), vec![(0, 6 * 64), (1, 64), (7, 64)]);
    assert_eq!(terms(&eager, 9), vec![(0, 4 * 64), (1, 4 * 64)]);
    // second level: the vertex point of the first vertex point
    // (1 * (4, 4 at 7, 0) + 6 * (1, 6, 1 at 7, 0, 1) + 1 * (4, 4 at 0, 1)) * 8
    assert_eq!(terms(&eager, 24), vec![(0, 44 * 8), (1, 10 * 8), (7, 10 * 8)]);
    // the last level alone is the tail of the cumulative table
    let last = StencilTable::new(
        &refiner,
        options(LevelScope::LastLevelOnly, true, false),
    ).unwrap();
    assert_eq!(last.len(), 64);
    for i in 0..64 {
        assert_eq!(terms(&last, i), terms(&eager, 56 + i));
    }
    // a constant buffer comes back unchanged
    let buffer = [-7i64; 8];
    for i in 0..eager.len() {
        assert_eq!(eager.evaluate(i, &buffer), Some(-7 * 512));
    }
}
