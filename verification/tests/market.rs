use commons::market::{
    allocate, allocation, amount_of_draw, products_from_draws, random_amount, random_inter_distance, random_intra_distance,
    random_market, random_markets, random_products, Market, Product, Resource, MARKETS,
    RESOURCE_COUNT,
};

fn product(resource: Resource, market: usize, distance: usize) -> Product {
    Product {
        resource,
        market,
        distance,
    }
}

fn distances(entries: &[((usize, usize), usize)]) -> Box<[[usize; MARKETS]; MARKETS]> {
    let rows: Vec<[usize; MARKETS]> = vec![[0usize; MARKETS]; MARKETS];
    let mut boxed: Box<[[usize; MARKETS]; MARKETS]> = rows.into_boxed_slice().try_into().unwrap();
    for ((i, j), d) in entries {
        boxed[*i][*j] = *d;
    }
    boxed
}

#[test]
fn resource_index_round_trip() {
    for i in 0..RESOURCE_COUNT {
        assert_eq!(Resource::at(i).index(), i);
    }
    assert_eq!(Resource::Red.index(), 0);
    assert_eq!(Resource::White.index(), 9);
}

#[test]
fn allocation_groups_by_resource_farthest_first() {
    let products = vec![
        product(Resource::Blue, 0, 5),
        product(Resource::Red, 0, 1),
        product(Resource::Blue, 0, 9),
        product(Resource::Red, 0, 7),
        product(Resource::Blue, 0, 5),
    ];

    let groups = allocation(&products);

    assert_eq!(groups.len(), RESOURCE_COUNT);
    let red: Vec<usize> = groups[0].iter().map(|p| p.distance).collect();
    let blue: Vec<usize> = groups[1].iter().map(|p| p.distance).collect();
    assert_eq!(red, vec![7, 1]);
    assert_eq!(blue, vec![9, 5, 5]);
    for group in &groups[2..] {
        assert!(group.is_empty());
    }
}

#[test]
fn allocation_keeps_order_of_equal_distances() {
    let products = vec![
        product(Resource::Green, 1, 3),
        product(Resource::Green, 2, 3),
        product(Resource::Green, 3, 4),
    ];

    let groups = allocation(&products);

    let markets: Vec<usize> = groups[2].iter().map(|p| p.market).collect();
    assert_eq!(markets, vec![3, 1, 2]);
}

#[test]
fn allocate_matches_nearest_markets_first() {
    // market 0 supplies two red units; markets 1 and 2 each want one red unit.
    let markets = vec![
        Market {
            id: 0,
            demand: vec![],
            supply: vec![product(Resource::Red, 0, 1), product(Resource::Red, 0, 2)],
        },
        Market {
            id: 1,
            demand: vec![product(Resource::Red, 1, 3)],
            supply: vec![],
        },
        Market {
            id: 2,
            demand: vec![product(Resource::Red, 2, 4), product(Resource::Red, 2, 6)],
            supply: vec![],
        },
    ];
    let distances = distances(&[((0, 1), 50), ((0, 2), 20), ((1, 2), 5), ((2, 1), 5)]);

    let allocations = allocate(&markets, &distances);

    // pairs at distance 0 come first but hold no supply; then (0, 2) at 20, then (0, 1) at 50.
    assert_eq!(allocations.len(), 2);
    assert_eq!(allocations[0].distance, 20);
    assert_eq!(allocations[0].demand.market, 2);
    assert_eq!(allocations[0].demand.distance, 4);
    assert_eq!(allocations[0].supply.distance, 1);
    assert_eq!(allocations[1].distance, 20);
    assert_eq!(allocations[1].demand.distance, 6);
    assert_eq!(allocations[1].supply.distance, 2);
}

#[test]
fn allocate_matches_only_equal_resources() {
    let markets = vec![
        Market {
            id: 0,
            demand: vec![product(Resource::Blue, 0, 1)],
            supply: vec![product(Resource::Red, 0, 1), product(Resource::Blue, 0, 8)],
        },
        Market {
            id: 1,
            demand: vec![product(Resource::Red, 1, 1), product(Resource::Red, 1, 2)],
            supply: vec![product(Resource::Blue, 1, 3)],
        },
    ];
    let distances = distances(&[((0, 1), 7), ((1, 0), 3)]);

    let allocations = allocate(&markets, &distances);

    assert_eq!(allocations.len(), 2);
    for a in &allocations {
        assert_eq!(a.supply.resource, a.demand.resource);
    }
    // (0, 0) at distance 0 matches market 0's blue supply with its own blue demand; market 1's
    // blue supply then finds no blue demand left.
    assert_eq!(allocations[0].supply.resource, Resource::Blue);
    assert_eq!(allocations[0].supply.market, 0);
    assert_eq!(allocations[0].distance, 0);
    // (0, 1) at 7 then matches one red unit.
    assert_eq!(allocations[1].supply.resource, Resource::Red);
    assert_eq!(allocations[1].demand.market, 1);
    assert_eq!(allocations[1].demand.distance, 1);
    assert_eq!(allocations[1].distance, 7);
}

#[test]
fn allocate_without_markets() {
    let distances = distances(&[]);
    assert!(allocate(&[], &distances).is_empty());
}

#[test]
fn random_values_stay_in_range() {
    for _ in 0..100 {
        let amount = random_amount();
        assert!((0..10).any(|a| a * a == amount));
        assert!(random_intra_distance() < 1024);
        assert!(random_inter_distance() < 1048576);
    }
}

#[test]
fn random_products_are_grouped_by_resource() {
    let products = random_products(7);
    for window in products.windows(2) {
        assert!(window[0].resource.index() <= window[1].resource.index());
    }
    for p in &products {
        assert_eq!(p.market, 7);
        assert!(p.distance < 1024);
    }
    for r in 0..RESOURCE_COUNT {
        let count = products.iter().filter(|p| p.resource.index() == r).count();
        assert!((0..10).any(|a| a * a == count));
    }
}

#[test]
fn random_market_has_its_id() {
    let market = random_market(42);
    assert_eq!(market.id, 42);
    assert!(market.demand.iter().all(|p| p.market == 42));
    assert!(market.supply.iter().all(|p| p.market == 42));
}

#[test]
fn random_markets_are_numbered() {
    let markets = random_markets();
    assert_eq!(markets.len(), MARKETS);
    for (i, market) in markets.iter().enumerate() {
        assert_eq!(market.id, i);
    }
}

#[test]
fn allocate_matches_the_smaller_of_supply_and_demand() {
    let markets: Vec<Market> = (0..4).map(random_market).collect();
    let mut entries = vec![];
    for i in 0..4 {
        for j in 0..4 {
            entries.push(((i, j), random_inter_distance()));
        }
    }
    let distances = distances(&entries);

    let allocations = allocate(&markets, &distances);

    for r in 0..RESOURCE_COUNT {
        let resource = Resource::at(r);
        let supply: usize = markets
            .iter()
            .map(|m| m.supply.iter().filter(|p| p.resource == resource).count())
            .sum();
        let demand: usize = markets
            .iter()
            .map(|m| m.demand.iter().filter(|p| p.resource == resource).count())
            .sum();
        let allocated = allocations.iter().filter(|a| a.supply.resource == resource).count();
        assert_eq!(allocated, supply.min(demand));
    }
    for pair in allocations.windows(2) {
        assert!(pair[0].distance <= pair[1].distance);
    }
}

#[test]
fn amount_of_draw_squares_the_draw() {
    assert_eq!(amount_of_draw(0), 0);
    assert_eq!(amount_of_draw(3), 9);
    assert_eq!(amount_of_draw(9), 81);
}

#[test]
fn products_from_draws_lists_each_resource_in_order() {
    let amounts = [1, 0, 4, 0, 0, 0, 0, 0, 0, 1];
    let distances = [7, 1, 2, 3, 4, 9];

    let products = products_from_draws(5, &amounts, &distances);

    let expected = vec![
        product(Resource::Red, 5, 7),
        product(Resource::Green, 5, 1),
        product(Resource::Green, 5, 2),
        product(Resource::Green, 5, 3),
        product(Resource::Green, 5, 4),
        product(Resource::White, 5, 9),
    ];
    assert_eq!(products.len(), expected.len());
    for (actual, expected) in products.iter().zip(expected.iter()) {
        assert_eq!(actual.resource, expected.resource);
        assert_eq!(actual.market, expected.market);
        assert_eq!(actual.distance, expected.distance);
    }
    assert!(products_from_draws(0, &[0; 10], &[]).is_empty());
}
