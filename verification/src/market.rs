use rand::Rng;
use vstd::multiset::Multiset;
use vstd::prelude::*;

verus! {

/// The number of markets that a trading round generates.
pub const MARKETS: usize = 2048;

/// The number of kinds of resource.
pub const RESOURCE_COUNT: usize = 10;

/// A kind of good that markets trade.
#[derive(Clone, Copy, Debug, Eq, PartialEq, Hash)]
pub enum Resource {
    Red,
    Blue,
    Green,
    Yellow,
    Orange,
    Purple,
    Pink,
    Brown,
    Black,
    White,
}

/// The position of `resource` in the order in which resources are traded.
pub open spec fn resource_index(resource: Resource) -> int {
    match resource {
        Resource::Red => 0,
        Resource::Blue => 1,
        Resource::Green => 2,
        Resource::Yellow => 3,
        Resource::Orange => 4,
        Resource::Purple => 5,
        Resource::Pink => 6,
        Resource::Brown => 7,
        Resource::Black => 8,
        Resource::White => 9,
    }
}

/// The resource at position `index` of the trading order.
pub open spec fn resource_at(index: int) -> Resource {
    if index == 0 {
        Resource::Red
    } else if index == 1 {
        Resource::Blue
    } else if index == 2 {
        Resource::Green
    } else if index == 3 {
        Resource::Yellow
    } else if index == 4 {
        Resource::Orange
    } else if index == 5 {
        Resource::Purple
    } else if index == 6 {
        Resource::Pink
    } else if index == 7 {
        Resource::Brown
    } else if index == 8 {
        Resource::Black
    } else {
        Resource::White
    }
}

impl Resource {
    /// The position of this resource in the order in which resources are traded.
    pub fn index(&self) -> (r: usize)
        ensures
            r == resource_index(*self),
            r < RESOURCE_COUNT,
            resource_at(r as int) == *self,
    {
        match self {
            Resource::Red => 0,
            Resource::Blue => 1,
            Resource::Green => 2,
            Resource::Yellow => 3,
            Resource::Orange => 4,
            Resource::Purple => 5,
            Resource::Pink => 6,
            Resource::Brown => 7,
            Resource::Black => 8,
            Resource::White => 9,
        }
    }

    /// The resource at position `index` of the trading order.
    pub fn at(index: usize) -> (r: Resource)
        requires
            index < RESOURCE_COUNT,
        ensures
            r == resource_at(index as int),
            resource_index(r) == index,
    {
        if index == 0 {
            Resource::Red
        } else if index == 1 {
            Resource::Blue
        } else if index == 2 {
            Resource::Green
        } else if index == 3 {
            Resource::Yellow
        } else if index == 4 {
            Resource::Orange
        } else if index == 5 {
            Resource::Purple
        } else if index == 6 {
            Resource::Pink
        } else if index == 7 {
            Resource::Brown
        } else if index == 8 {
            Resource::Black
        } else {
            Resource::White
        }
    }
}

/// One unit of a resource that a market offers or wants, with its distance inside the market.
#[derive(Clone, Copy, Debug)]
pub struct Product {
    pub resource: Resource,
    pub market: usize,
    pub distance: usize,
}

/// A market with the products it wants and those it offers.
#[derive(Debug)]
pub struct Market {
    pub id: usize,
    pub demand: Vec<Product>,
    pub supply: Vec<Product>,
}

/// A unit of supply matched with a unit of demand, between markets `distance` apart.
#[derive(Clone, Copy, Debug)]
pub struct Allocation {
    pub demand: Product,
    pub supply: Product,
    pub distance: usize,
}

/// `perm` lists, for each position of `out`, the distinct position of `inp` that it was
/// taken from.
pub open spec fn is_reordering<A>(out: Seq<A>, inp: Seq<A>, perm: Seq<int>) -> bool {
    &&& out.len() == inp.len()
    &&& perm.len() == out.len()
    &&& forall|k: int| 0 <= k < perm.len() ==> 0 <= #[trigger] perm[k] < inp.len()
    &&& forall|k: int, l: int| 0 <= k < l < perm.len() ==> #[trigger] perm[k] != #[trigger] perm[l]
    &&& forall|k: int| 0 <= k < out.len() ==> #[trigger] out[k] == inp[perm[k]]
}

/// `out` is `inp` sorted by the first component, ascending, with equal keys kept in their
/// order in `inp`.
pub open spec fn is_stable_sort_by_key<T>(out: Seq<(usize, T)>, inp: Seq<(usize, T)>) -> bool {
    exists|perm: Seq<int>|
        {
            &&& #[trigger] is_reordering(out, inp, perm)
            &&& forall|k: int, l: int| 0 <= k < l < out.len() ==> (#[trigger] out[k]).0 <= (#[trigger] out[l]).0
            &&& forall|k: int, l: int|
                0 <= k < l < out.len() && (#[trigger] out[k]).0 == (#[trigger] out[l]).0 ==> perm[k] < perm[l]
        }
}

/// `out` is `inp` sorted by distance, farthest first, with equal distances kept in their
/// order in `inp`.
pub open spec fn is_farthest_first(out: Seq<Product>, inp: Seq<Product>) -> bool {
    exists|perm: Seq<int>|
        {
            &&& #[trigger] is_reordering(out, inp, perm)
            &&& forall|k: int, l: int|
                0 <= k < l < out.len() ==> (#[trigger] out[k]).distance >= (#[trigger] out[l]).distance
            &&& forall|k: int, l: int|
                0 <= k < l < out.len() && (#[trigger] out[k]).distance == (#[trigger] out[l]).distance
                    ==> perm[k] < perm[l]
        }
}

/// Sorts `v` by the first component of each entry, keeping entries with equal keys in order,
/// with `slice::sort_by_key`.
///
/// Trusted: std documents `sort_by_key` as a stable sort in ascending order of the key; the
/// contract states exactly that.
#[verifier::external_body]
fn sort_by_key_stable<T>(v: &mut Vec<(usize, T)>)
    ensures
        is_stable_sort_by_key(final(v)@, old(v)@),
{
    v.sort_by_key(|entry| entry.0);
}

/// The products of `products` whose resource is at position `r` of the trading order, in
/// their order in `products`.
pub open spec fn of_resource(products: Seq<Product>, r: int) -> Seq<Product>
    decreases products.len(),
{
    if products.len() == 0 {
        Seq::empty()
    } else {
        let before = of_resource(products.drop_last(), r);
        if resource_index(products.last().resource) == r {
            before.push(products.last())
        } else {
            before
        }
    }
}

/// Sorts `products` farthest first, keeping products at equal distances in their order.
pub fn farthest_first(products: Vec<Product>) -> (r: Vec<Product>)
    ensures
        is_farthest_first(r@, products@),
{
    let n = products.len();
    let mut keyed: Vec<(usize, Product)> = Vec::new();
    let mut k: usize = 0;
    while k < n
        invariant
            n == products@.len(),
            k <= n,
            keyed@.len() == k,
            forall|m: int|
                0 <= m < k ==> #[trigger] keyed@[m] == (products@[n - 1 - m].distance, products@[n - 1 - m]),
        decreases n - k,
    {
        let p = products[n - 1 - k];
        keyed.push((p.distance, p));
        k += 1;
    }
    let ghost unsorted = keyed@;
    sort_by_key_stable(&mut keyed);
    let ghost sorted = keyed@;
    let ghost perm1 = choose|perm: Seq<int>|
        {
            &&& #[trigger] is_reordering(sorted, unsorted, perm)
            &&& forall|k: int, l: int| 0 <= k < l < sorted.len() ==> (#[trigger] sorted[k]).0 <= (#[trigger] sorted[l]).0
            &&& forall|k: int, l: int|
                0 <= k < l < sorted.len() && (#[trigger] sorted[k]).0 == (#[trigger] sorted[l]).0 ==> perm[k] < perm[l]
        };
    let mut out: Vec<Product> = Vec::new();
    let mut k: usize = 0;
    while k < n
        invariant
            n == products@.len(),
            keyed@ == sorted,
            sorted.len() == n,
            k <= n,
            out@.len() == k,
            forall|m: int| 0 <= m < k ==> #[trigger] out@[m] == sorted[n - 1 - m].1,
        decreases n - k,
    {
        out.push(keyed[n - 1 - k].1);
        k += 1;
    }
    proof {
        let perm = Seq::new(n as nat, |m: int| n - 1 - perm1[n - 1 - m]);
        assert forall|m: int| 0 <= m < n implies #[trigger] out@[m] == products@[perm[m]] by {
            assert(sorted[n - 1 - m] == unsorted[perm1[n - 1 - m]]);
        }
        assert forall|a: int, b: int| 0 <= a < b < n implies #[trigger] perm[a] != #[trigger] perm[b] by {
            assert(perm1[n - 1 - b] != perm1[n - 1 - a]);
        }
        assert forall|m: int| 0 <= m < n implies 0 <= #[trigger] perm[m] < n by {
            assert(0 <= perm1[n - 1 - m] < n);
        }
        assert(is_reordering(out@, products@, perm));
        assert forall|a: int, b: int| 0 <= a < b < out@.len() implies (#[trigger] out@[a]).distance
            >= (#[trigger] out@[b]).distance by {
            assert(sorted[n - 1 - b].0 <= sorted[n - 1 - a].0);
        }
        assert forall|a: int, b: int|
            0 <= a < b < out@.len() && (#[trigger] out@[a]).distance == (#[trigger] out@[b]).distance
                implies perm[a] < perm[b] by {
            assert(sorted[n - 1 - b].0 == sorted[n - 1 - a].0);
            assert(perm1[n - 1 - b] < perm1[n - 1 - a]);
        }
    }
    out
}

/// Groups `products` by resource, in trading order, each group sorted farthest first with
/// products at equal distances kept in their order.
pub fn allocation(products: &[Product]) -> (r: Vec<Vec<Product>>)
    ensures
        r@.len() == RESOURCE_COUNT,
        forall|k: int|
            0 <= k < RESOURCE_COUNT ==> is_farthest_first(
                #[trigger] r@[k]@,
                of_resource(products@, k),
            ),
{
    let mut groups: Vec<Vec<Product>> = Vec::new();
    let mut k: usize = 0;
    while k < RESOURCE_COUNT
        invariant
            k <= RESOURCE_COUNT,
            groups@.len() == k,
            forall|m: int| 0 <= m < k ==> (#[trigger] groups@[m])@ == Seq::<Product>::empty(),
        decreases RESOURCE_COUNT - k,
    {
        groups.push(Vec::new());
        k += 1;
    }
    let mut i: usize = 0;
    while i < products.len()
        invariant
            i <= products@.len(),
            groups@.len() == RESOURCE_COUNT,
            forall|m: int|
                0 <= m < RESOURCE_COUNT ==> (#[trigger] groups@[m])@ == of_resource(
                    products@.take(i as int),
                    m,
                ),
        decreases products@.len() - i,
    {
        let product = products[i];
        let r = product.resource.index();
        let mut group: Vec<Product> = Vec::new();
        groups.set_and_swap(r, &mut group);
        group.push(product);
        groups.set_and_swap(r, &mut group);
        proof {
            assert(products@.take(i + 1).drop_last() =~= products@.take(i as int));
            assert(products@.take(i + 1).last() == product);
        }
        i += 1;
    }
    proof {
        assert(products@.take(products@.len() as int) =~= products@);
    }
    let mut out: Vec<Vec<Product>> = Vec::new();
    let mut k: usize = 0;
    while k < RESOURCE_COUNT
        invariant
            k <= RESOURCE_COUNT,
            groups@.len() == RESOURCE_COUNT,
            forall|m: int|
                k <= m < RESOURCE_COUNT ==> (#[trigger] groups@[m])@ == of_resource(products@, m),
            out@.len() == k,
            forall|m: int|
                0 <= m < k ==> is_farthest_first(
                    (#[trigger] out@[m])@,
                    of_resource(products@, m),
                ),
        decreases RESOURCE_COUNT - k,
    {
        let mut group: Vec<Product> = Vec::new();
        groups.set_and_swap(k, &mut group);
        let sorted = farthest_first(group);
        out.push(sorted);
        k += 1;
    }
    out
}


/// The state of a trading round: the allocations made so far, and the supply and demand
/// still unmatched, as one list per market and resource at `market * RESOURCE_COUNT + resource`.
pub type Ledger = (Seq<Allocation>, Seq<Seq<Product>>, Seq<Seq<Product>>);

/// The number of units that two lists can match.
pub open spec fn match_count(supply: Seq<Product>, demand: Seq<Product>) -> int {
    if supply.len() <= demand.len() {
        supply.len() as int
    } else {
        demand.len() as int
    }
}

/// The allocations made between `supply` and `demand` at `distance`: the last units of both
/// lists are matched first, until one list runs out.
pub open spec fn matched(supply: Seq<Product>, demand: Seq<Product>, distance: usize) -> Seq<
    Allocation,
> {
    Seq::new(
        match_count(supply, demand) as nat,
        |t: int|
            Allocation {
                supply: supply[supply.len() - 1 - t],
                demand: demand[demand.len() - 1 - t],
                distance,
            },
    )
}

/// The ledger after market `i`'s supply of resource `r` meets market `j`'s demand for it.
pub open spec fn trade_resource(ledger: Ledger, i: int, j: int, distance: usize, r: int) -> Ledger {
    let supply = ledger.1[i * RESOURCE_COUNT + r];
    let demand = ledger.2[j * RESOURCE_COUNT + r];
    let count = match_count(supply, demand);
    (
        ledger.0 + matched(supply, demand, distance),
        ledger.1.update(i * RESOURCE_COUNT + r, supply.take(supply.len() - count)),
        ledger.2.update(j * RESOURCE_COUNT + r, demand.take(demand.len() - count)),
    )
}

/// The ledger after market `i`'s supply meets market `j`'s demand for the first `count`
/// resources of the trading order.
pub open spec fn trade_resources(ledger: Ledger, i: int, j: int, distance: usize, count: nat) -> Ledger
    decreases count,
{
    if count == 0 {
        ledger
    } else {
        trade_resource(trade_resources(ledger, i, j, distance, (count - 1) as nat), i, j, distance, count - 1)
    }
}

/// The ledger after each pair `(distance, (supplier, consumer))` of `pairs` has traded, in order.
pub open spec fn trade(pairs: Seq<(usize, (usize, usize))>, ledger: Ledger) -> Ledger
    decreases pairs.len(),
{
    if pairs.len() == 0 {
        ledger
    } else {
        let before = trade(pairs.drop_last(), ledger);
        let pair = pairs.last();
        trade_resources(before, pair.1.0 as int, pair.1.1 as int, pair.0, RESOURCE_COUNT as nat)
    }
}

/// Every ordered pair of the first `n` markets, supplier first, with the distance between them.
pub open spec fn candidate_pairs(n: int, distances: Seq<Seq<usize>>) -> Seq<(usize, (usize, usize))> {
    Seq::new(
        (n * n) as nat,
        |k: int| (distances[k / n][k % n], ((k / n) as usize, (k % n) as usize)),
    )
}

/// The contents of each list.
pub open spec fn contents(lists: Seq<Vec<Product>>) -> Seq<Seq<Product>> {
    Seq::new(lists.len(), |k: int| lists[k]@)
}

/// The rows of `distances`.
pub open spec fn distance_rows(distances: [[usize; MARKETS]; MARKETS]) -> Seq<Seq<usize>> {
    Seq::new(MARKETS as nat, |i: int| distances@[i]@)
}

/// `lists` holds, at `m * RESOURCE_COUNT + r`, the products of `products_of(m)` of resource `r`
/// sorted farthest first.
pub open spec fn grouped_lists(lists: Seq<Seq<Product>>, products: Seq<Seq<Product>>) -> bool {
    &&& lists.len() == products.len() * RESOURCE_COUNT
    &&& forall|m: int, r: int|
        0 <= m < products.len() && 0 <= r < RESOURCE_COUNT ==> is_farthest_first(
            #[trigger] lists[m * RESOURCE_COUNT + r],
            of_resource(#[trigger] products[m], r),
        )
}

/// The supply of each market.
pub open spec fn supplies(markets: Seq<Market>) -> Seq<Seq<Product>> {
    Seq::new(markets.len(), |m: int| markets[m].supply@)
}

/// The demand of each market.
pub open spec fn demands(markets: Seq<Market>) -> Seq<Seq<Product>> {
    Seq::new(markets.len(), |m: int| markets[m].demand@)
}

/// The products of each market, grouped by resource and sorted farthest first, one list per
/// market and resource.
fn grouped(markets: &[Market], use_supply: bool) -> (r: Vec<Vec<Product>>)
    ensures
        grouped_lists(
            contents(r@),
            if use_supply { supplies(markets@) } else { demands(markets@) },
        ),
{
    let ghost products = if use_supply { supplies(markets@) } else { demands(markets@) };
    let mut lists: Vec<Vec<Product>> = Vec::new();
    let mut m: usize = 0;
    while m < markets.len()
        invariant
            products == (if use_supply { supplies(markets@) } else { demands(markets@) }),
            m <= markets@.len(),
            lists@.len() == m * RESOURCE_COUNT,
            forall|k: int, r: int|
                0 <= k < m && 0 <= r < RESOURCE_COUNT ==> is_farthest_first(
                    (#[trigger] lists@[k * RESOURCE_COUNT + r])@,
                    of_resource(#[trigger] products[k], r),
                ),
        decreases markets@.len() - m,
    {
        let market = &markets[m];
        let mut groups = if use_supply {
            allocation(market.supply.as_slice())
        } else {
            allocation(market.demand.as_slice())
        };
        let ghost before = lists@;
        lists.append(&mut groups);
        proof {
            assert forall|k: int, r: int|
                0 <= k < m + 1 && 0 <= r < RESOURCE_COUNT implies is_farthest_first(
                (#[trigger] lists@[k * RESOURCE_COUNT + r])@,
                of_resource(#[trigger] products[k], r),
            ) by {
                if k < m {
                    assert(lists@[k * RESOURCE_COUNT + r] == before[k * RESOURCE_COUNT + r]);
                }
            }
        }
        m += 1;
    }
    proof {
        assert forall|k: int, r: int|
            0 <= k < products.len() && 0 <= r < RESOURCE_COUNT implies is_farthest_first(
            #[trigger] contents(lists@)[k * RESOURCE_COUNT + r],
            of_resource(#[trigger] products[k], r),
        ) by {
            assert(lists@[k * RESOURCE_COUNT + r]@ == contents(lists@)[k * RESOURCE_COUNT + r]);
        }
    }
    lists
}


/// Every ordered pair of the first `n` markets with the distance between them, supplier
/// first, in row-major order.
fn pairs_with_distances(n: usize, distances: &[[usize; MARKETS]; MARKETS]) -> (r: Vec<(usize, (usize, usize))>)
    requires
        n <= MARKETS,
    ensures
        r@ == candidate_pairs(n as int, distance_rows(*distances)),
{
    let mut pairs: Vec<(usize, (usize, usize))> = Vec::new();
    let mut i: usize = 0;
    while i < n
        invariant
            n <= MARKETS,
            i <= n,
            pairs@.len() == i * n,
            forall|k: int|
                0 <= k < pairs@.len() ==> #[trigger] pairs@[k] == (
                    distance_rows(*distances)[k / (n as int)][k % (n as int)],
                    ((k / (n as int)) as usize, (k % (n as int)) as usize),
                ),
        decreases n - i,
    {
        let mut j: usize = 0;
        while j < n
            invariant
                n <= MARKETS,
                i < n,
                j <= n,
                pairs@.len() == i * n + j,
                forall|k: int|
                    0 <= k < pairs@.len() ==> #[trigger] pairs@[k] == (
                        distance_rows(*distances)[k / (n as int)][k % (n as int)],
                        ((k / (n as int)) as usize, (k % (n as int)) as usize),
                    ),
            decreases n - j,
        {
            proof {
                crate::grid::lemma_row_major(n as int, j as int, i as int);
                assert(i * n + j < MARKETS * MARKETS) by (nonlinear_arith)
                    requires
                        i < n,
                        j < n,
                        n <= MARKETS,
                ;
            }
            pairs.push((distances[i][j], (i, j)));
            j += 1;
        }
        proof {
            assert((i + 1) * n == i * n + n) by (nonlinear_arith);
        }
        i += 1;
    }
    proof {
        assert(pairs@ =~= candidate_pairs(n as int, distance_rows(*distances)));
    }
    pairs
}

/// Matches the remaining supply in `supply` with the remaining demand in `demand`, last
/// units first, until one of them runs out, appending an allocation at `distance` to `out`
/// for each match.
fn match_lists(out: &mut Vec<Allocation>, supply: &mut Vec<Product>, demand: &mut Vec<Product>, distance: usize)
    ensures
        final(out)@ == old(out)@ + matched(old(supply)@, old(demand)@, distance),
        final(supply)@ == old(supply)@.take(
            old(supply)@.len() - match_count(old(supply)@, old(demand)@),
        ),
        final(demand)@ == old(demand)@.take(
            old(demand)@.len() - match_count(old(supply)@, old(demand)@),
        ),
{
    let ghost s0 = supply@;
    let ghost d0 = demand@;
    let ghost o0 = out@;
    let ghost count = match_count(s0, d0);
    let ghost all = matched(s0, d0, distance);
    while !supply.is_empty() && !demand.is_empty()
        invariant
            0 <= s0.len() - supply@.len() <= count,
            s0.len() - supply@.len() == d0.len() - demand@.len(),
            supply@ == s0.take(supply@.len() as int),
            demand@ == d0.take(demand@.len() as int),
            out@ == o0 + all.take(s0.len() - supply@.len()),
            count == match_count(s0, d0),
            all == matched(s0, d0, distance),
        decreases supply@.len(),
    {
        let ghost t = s0.len() - supply@.len();
        let s = supply.pop().unwrap();
        let d = demand.pop().unwrap();
        out.push(Allocation { supply: s, demand: d, distance });
        proof {
            assert(all[t] == Allocation { supply: s, demand: d, distance });
            assert(all.take(t + 1) =~= all.take(t).push(all[t]));
            assert(supply@ =~= s0.take(supply@.len() as int));
            assert(demand@ =~= d0.take(demand@.len() as int));
        }
    }
    proof {
        assert(all.take(count) =~= all);
    }
}


/// The allocations of a trading round in which `supply` and `demand` hold the products of each
/// market grouped by resource, sorted farthest first, and the pairs of markets trade in the
/// order `pairs`, each pair over every resource in trading order.
pub open spec fn round(pairs: Seq<(usize, (usize, usize))>, supply: Seq<Seq<Product>>, demand: Seq<Seq<Product>>) -> Seq<Allocation> {
    trade(pairs, (Seq::empty(), supply, demand)).0
}

/// Matches supply with demand across `markets`: every ordered pair of markets, nearest first
/// (pairs at equal distance in row-major order), trades each resource in turn, the nearest
/// remaining units of the supplier meeting the nearest remaining units of the consumer until
/// one side runs out.
pub fn allocate(markets: &[Market], distances: &[[usize; MARKETS]; MARKETS]) -> (r: Vec<Allocation>)
    requires
        markets@.len() <= MARKETS,
    ensures
        (exists|pairs: Seq<(usize, (usize, usize))>, supply: Seq<Seq<Product>>, demand: Seq<Seq<Product>>|
            {
                &&& is_stable_sort_by_key(
                    pairs,
                    candidate_pairs(markets@.len() as int, distance_rows(*distances)),
                )
                &&& grouped_lists(supply, supplies(markets@))
                &&& grouped_lists(demand, demands(markets@))
                &&& r@ == #[trigger] round(pairs, supply, demand)
                &&& supplied(r@).to_multiset().subset_of(all_units(supply))
                &&& demanded(r@).to_multiset().subset_of(all_units(demand))
            }),
        forall|k: int| 0 <= k < r@.len() ==> same_resource(#[trigger] r@[k]),
        nearest_first(r@),
        forall|q: int|
            0 <= q < RESOURCE_COUNT ==> #[trigger] allocations_of(r@, q) == min_count(
                total(supplies(markets@), q, markets@.len()),
                total(demands(markets@), q, markets@.len()),
            ),
{
    let n = markets.len();
    let mut out: Vec<Allocation> = Vec::new();
    let mut demand_lists = grouped(markets, false);
    let mut supply_lists = grouped(markets, true);
    let ghost demand0 = contents(demand_lists@);
    let ghost supply0 = contents(supply_lists@);

    let mut pairs = pairs_with_distances(n, distances);
    sort_by_key_stable(&mut pairs);
    let ghost sorted = pairs@;
    proof {
        lemma_sorted_pairs_bounded(sorted, n as int, distance_rows(*distances));
    }

    let mut p: usize = 0;
    while p < pairs.len()
        invariant
            n == markets@.len(),
            n <= MARKETS,
            pairs@ == sorted,
            forall|k: int| 0 <= k < sorted.len() ==> (#[trigger] sorted[k]).1.0 < n && sorted[k].1.1 < n,
            supply0.len() == n * RESOURCE_COUNT,
            demand0.len() == n * RESOURCE_COUNT,
            supply_lists@.len() == n * RESOURCE_COUNT,
            demand_lists@.len() == n * RESOURCE_COUNT,
            p <= sorted.len(),
            (out@, contents(supply_lists@), contents(demand_lists@)) == trade(
                sorted.take(p as int),
                (Seq::empty(), supply0, demand0),
            ),
        decreases sorted.len() - p,
    {
        let (distance, (i, j)) = pairs[p];
        let ghost before = (out@, contents(supply_lists@), contents(demand_lists@));
        proof {
            assert(sorted.take(p + 1).drop_last() =~= sorted.take(p as int));
        }
        let mut r: usize = 0;
        while r < RESOURCE_COUNT
            invariant
                i < n,
                j < n,
                n <= MARKETS,
                supply_lists@.len() == n * RESOURCE_COUNT,
                demand_lists@.len() == n * RESOURCE_COUNT,
                r <= RESOURCE_COUNT,
                (out@, contents(supply_lists@), contents(demand_lists@)) == trade_resources(
                    before,
                    i as int,
                    j as int,
                    distance,
                    r as nat,
                ),
            decreases RESOURCE_COUNT - r,
        {
            let si = i * RESOURCE_COUNT + r;
            let di = j * RESOURCE_COUNT + r;
            let mut supply: Vec<Product> = Vec::new();
            let mut demand: Vec<Product> = Vec::new();
            supply_lists.set_and_swap(si, &mut supply);
            demand_lists.set_and_swap(di, &mut demand);
            match_lists(&mut out, &mut supply, &mut demand, distance);
            supply_lists.set_and_swap(si, &mut supply);
            demand_lists.set_and_swap(di, &mut demand);
            proof {
                let prev = trade_resources(before, i as int, j as int, distance, r as nat);
                assert(contents(supply_lists@) =~= trade_resource(prev, i as int, j as int, distance, r as int).1);
                assert(contents(demand_lists@) =~= trade_resource(prev, i as int, j as int, distance, r as int).2);
            }
            r += 1;
        }
        p += 1;
    }
    proof {
        assert(sorted.take(sorted.len() as int) =~= sorted);
        assert(grouped_lists(supply0, supplies(markets@)));
        assert(out@ == round(sorted, supply0, demand0));
        law_round_matches_resources(sorted, supply0, demand0, markets@);
        law_round_uses_each_unit_once(sorted, supply0, demand0, n as int);
        lemma_stable_sort_ascending(sorted, candidate_pairs(n as int, distance_rows(*distances)));
        law_round_nearest_first(sorted, supply0, demand0);
        assert forall|q: int| 0 <= q < RESOURCE_COUNT implies #[trigger] allocations_of(out@, q) == min_count(
            total(supplies(markets@), q, markets@.len()),
            total(demands(markets@), q, markets@.len()),
        ) by {
            law_round_allocates_min(sorted, supply0, demand0, markets@, distance_rows(*distances), q);
        }
    }
    out
}


/// A number drawn uniformly from `low..high` by `rand::Rng::gen_range` on the thread-local
/// generator of `rand::thread_rng`.
///
/// Trusted: `gen_range` panics on an empty range, which `requires` excludes, and otherwise
/// returns a value of the range; nothing more is stated, as the value is random.
#[verifier::external_body]
fn gen_range(low: usize, high: usize) -> (r: usize)
    requires
        low < high,
    ensures
        low <= r < high,
{
    rand::thread_rng().gen_range(low..high)
}

/// `a` squared.
pub open spec fn square(a: int) -> int {
    a * a
}

/// Whether `n` is the square of a number below 10.
pub open spec fn is_small_square(n: int) -> bool {
    exists|a: int| 0 <= a < 10 && #[trigger] square(a) == n
}

/// The number of units that a draw of `a` gives: `a` squared.
pub fn amount_of_draw(a: usize) -> (r: usize)
    requires
        a < 10,
    ensures
        r == a * a,
{
    assert(a * a < 100) by (nonlinear_arith)
        requires
            a < 10,
    ;
    a * a
}

/// How many units of one resource a generated market holds: the square of a number drawn
/// below 10.
pub fn random_amount() -> (r: usize)
    ensures
        is_small_square(r as int),
{
    let a = gen_range(0, 10);
    let r = amount_of_draw(a);
    assert(square(a as int) == r);
    r
}

/// The distance of a product within its market, below 1024.
pub fn random_intra_distance() -> (r: usize)
    ensures
        r < 1024,
{
    gen_range(0, 1024)
}

/// The distance between two markets, below 1048576.
pub fn random_inter_distance() -> (r: usize)
    ensures
        r < 1048576,
{
    gen_range(0, 1048576)
}

/// The number of units of the first `n` resources.
pub open spec fn units_drawn(amounts: Seq<usize>, n: nat) -> nat
    decreases n,
{
    if n == 0 {
        0
    } else {
        units_drawn(amounts, (n - 1) as nat) + amounts[n - 1] as nat
    }
}

/// The products of the first `n` resources in trading order: `amounts[k]` units of the
/// resource at position `k` of `market`, each at the next distance of `distances`.
pub open spec fn drawn_upto(market: usize, amounts: Seq<usize>, distances: Seq<usize>, n: nat) -> Seq<Product>
    decreases n,
{
    if n == 0 {
        Seq::empty()
    } else {
        let start = units_drawn(amounts, (n - 1) as nat);
        drawn_upto(market, amounts, distances, (n - 1) as nat) + Seq::new(
            amounts[n - 1] as nat,
            |t: int| Product { resource: resource_at(n - 1), market, distance: distances[start + t] },
        )
    }
}

/// The products that the draws give: resource by resource in trading order, `amounts[k]`
/// units of the resource at position `k` of `market`, each at the next distance of
/// `distances`.
pub open spec fn drawn_products(market: usize, amounts: Seq<usize>, distances: Seq<usize>) -> Seq<Product> {
    drawn_upto(market, amounts, distances, amounts.len())
}

/// Draws that `random_products` can make: a square number below 100 of units per resource,
/// and one distance below 1024 per unit.
pub open spec fn possible_draws(amounts: Seq<usize>, distances: Seq<usize>) -> bool {
    &&& amounts.len() == RESOURCE_COUNT
    &&& forall|k: int| 0 <= k < amounts.len() ==> is_small_square(#[trigger] amounts[k] as int)
    &&& distances.len() == units_drawn(amounts, amounts.len())
    &&& forall|i: int| 0 <= i < distances.len() ==> #[trigger] distances[i] < 1024
}

/// Whether `products` is what some possible draws give for `market`.
pub open spec fn generated_products(products: Seq<Product>, market: usize) -> bool {
    exists|amounts: Seq<usize>, distances: Seq<usize>|
        possible_draws(amounts, distances) && products == #[trigger] drawn_products(market, amounts, distances)
}

/// Units counted over more resources are at least as many.
proof fn lemma_units_drawn_monotone(amounts: Seq<usize>, m: nat, n: nat)
    requires
        m <= n,
    ensures
        units_drawn(amounts, m) <= units_drawn(amounts, n),
    decreases n,
{
    if m < n {
        lemma_units_drawn_monotone(amounts, m, (n - 1) as nat);
    }
}

/// The products for `market` that the draws give: for each resource in trading order,
/// `amounts[k]` units, each at the next distance of `distances`.
pub fn products_from_draws(market: usize, amounts: &[usize], distances: &[usize]) -> (r: Vec<Product>)
    requires
        amounts@.len() == RESOURCE_COUNT,
        distances@.len() == units_drawn(amounts@, amounts@.len()),
    ensures
        r@ == drawn_products(market, amounts@, distances@),
{
    let mut out: Vec<Product> = Vec::new();
    let mut r: usize = 0;
    while r < RESOURCE_COUNT
        invariant
            amounts@.len() == RESOURCE_COUNT,
            distances@.len() == units_drawn(amounts@, amounts@.len()),
            r <= RESOURCE_COUNT,
            out@ == drawn_upto(market, amounts@, distances@, r as nat),
            out@.len() == units_drawn(amounts@, r as nat),
        decreases RESOURCE_COUNT - r,
    {
        let resource = Resource::at(r);
        let amount = amounts[r];
        let ghost before = out@;
        let ghost start = units_drawn(amounts@, r as nat);
        proof {
            lemma_units_drawn_monotone(amounts@, (r + 1) as nat, amounts@.len());
            assert(units_drawn(amounts@, (r + 1) as nat) == start + amount);
        }
        let mut c: usize = 0;
        while c < amount
            invariant
                amounts@.len() == RESOURCE_COUNT,
                r < RESOURCE_COUNT,
                amount == amounts@[r as int],
                resource == resource_at(r as int),
                start == units_drawn(amounts@, r as nat),
                start + amount <= distances@.len(),
                c <= amount,
                out@.len() == start + c,
                out@ == before + Seq::new(
                    c as nat,
                    |t: int| Product { resource: resource_at(r as int), market, distance: distances@[start + t] },
                ),
            decreases amount - c,
        {
            let distance = distances[out.len()];
            out.push(Product { resource, market, distance });
            proof {
                assert(out@ =~= before + Seq::new(
                    (c + 1) as nat,
                    |t: int| Product { resource: resource_at(r as int), market, distance: distances@[start + t] },
                ));
            }
            c += 1;
        }
        proof {
            assert(out@ =~= drawn_upto(market, amounts@, distances@, (r + 1) as nat));
        }
        r += 1;
    }
    out
}

/// A random product list for `market`: for each resource in trading order, `random_amount()`
/// units, each at `random_intra_distance()`.
pub fn random_products(market: usize) -> (r: Vec<Product>)
    ensures
        generated_products(r@, market),
{
    let mut amounts: Vec<usize> = Vec::new();
    let mut distances: Vec<usize> = Vec::new();
    let mut r: usize = 0;
    while r < RESOURCE_COUNT
        invariant
            r <= RESOURCE_COUNT,
            amounts@.len() == r,
            forall|k: int| 0 <= k < amounts@.len() ==> is_small_square(#[trigger] amounts@[k] as int),
            distances@.len() == units_drawn(amounts@, r as nat),
            distances@.len() <= 100 * r,
            forall|i: int| 0 <= i < distances@.len() ==> #[trigger] distances@[i] < 1024,
        decreases RESOURCE_COUNT - r,
    {
        let amount = random_amount();
        let ghost a = choose|a: int| 0 <= a < 10 && #[trigger] square(a) == amount;
        assert(amount < 100) by (nonlinear_arith)
            requires
                0 <= a < 10,
                square(a) == amount,
        ;
        let ghost old_amounts = amounts@;
        amounts.push(amount);
        proof {
            lemma_units_drawn_same(amounts@, old_amounts, r as nat);
        }
        let mut c: usize = 0;
        while c < amount
            invariant
                r < RESOURCE_COUNT,
                amount < 100,
                amounts@.len() == r + 1,
                amounts@[r as int] == amount,
                forall|k: int| 0 <= k < amounts@.len() ==> is_small_square(#[trigger] amounts@[k] as int),
                c <= amount,
                distances@.len() == units_drawn(amounts@, r as nat) + c,
                distances@.len() <= 100 * r + c,
                forall|i: int| 0 <= i < distances@.len() ==> #[trigger] distances@[i] < 1024,
            decreases amount - c,
        {
            distances.push(random_intra_distance());
            c += 1;
        }
        r += 1;
    }
    let products = products_from_draws(market, amounts.as_slice(), distances.as_slice());
    proof {
        assert(possible_draws(amounts@, distances@));
    }
    products
}

/// Counts over sequences that agree on the counted amounts agree.
proof fn lemma_units_drawn_same(a: Seq<usize>, b: Seq<usize>, n: nat)
    requires
        n <= a.len(),
        n <= b.len(),
        forall|k: int| 0 <= k < n ==> a[k] == b[k],
    ensures
        units_drawn(a, n) == units_drawn(b, n),
    decreases n,
{
    if n > 0 {
        lemma_units_drawn_same(a, b, (n - 1) as nat);
    }
}

/// A market with random demand and supply.
pub fn random_market(id: usize) -> (r: Market)
    ensures
        r.id == id,
        generated_products(r.demand@, id),
        generated_products(r.supply@, id),
{
    Market { id, demand: random_products(id), supply: random_products(id) }
}

/// `MARKETS` random markets, numbered from 0.
pub fn random_markets() -> (r: Vec<Market>)
    ensures
        r@.len() == MARKETS,
        forall|i: int|
            0 <= i < MARKETS ==> (#[trigger] r@[i]).id == i && generated_products(r@[i].demand@, i as usize)
                && generated_products(r@[i].supply@, i as usize),
{
    let mut markets: Vec<Market> = Vec::new();
    let mut i: usize = 0;
    while i < MARKETS
        invariant
            i <= MARKETS,
            markets@.len() == i,
            forall|k: int|
                0 <= k < i ==> (#[trigger] markets@[k]).id == k && generated_products(
                    markets@[k].demand@,
                    k as usize,
                ) && generated_products(markets@[k].supply@, k as usize),
        decreases MARKETS - i,
    {
        markets.push(random_market(i));
        i += 1;
    }
    markets
}


/// Whether an allocation matches supply and demand of the same resource.
pub open spec fn same_resource(allocation: Allocation) -> bool {
    allocation.supply.resource == allocation.demand.resource
}

/// Each list at `market * RESOURCE_COUNT + resource` holds products of that resource only.
pub open spec fn sorted_by_resource(lists: Seq<Seq<Product>>) -> bool {
    forall|idx: int, t: int|
        0 <= idx < lists.len() && 0 <= t < lists[idx].len() ==> resource_index(
            (#[trigger] lists[idx][t]).resource,
        ) == idx % (RESOURCE_COUNT as int)
}

/// A ledger for `n` markets whose lists each hold their own resource, and whose allocations
/// each match a single resource.
pub open spec fn consistent(ledger: Ledger, n: int) -> bool {
    &&& ledger.1.len() == n * RESOURCE_COUNT
    &&& ledger.2.len() == n * RESOURCE_COUNT
    &&& sorted_by_resource(ledger.1)
    &&& sorted_by_resource(ledger.2)
    &&& forall|k: int| 0 <= k < ledger.0.len() ==> same_resource(#[trigger] ledger.0[k])
}

/// The products of one resource are all of that resource.
proof fn lemma_of_resource_only(products: Seq<Product>, r: int)
    ensures
        forall|t: int|
            0 <= t < of_resource(products, r).len() ==> resource_index(
                (#[trigger] of_resource(products, r)[t]).resource,
            ) == r,
    decreases products.len(),
{
    if products.len() > 0 {
        lemma_of_resource_only(products.drop_last(), r);
    }
}

/// Lists grouped by resource hold their own resource only.
proof fn lemma_grouped_sorted(lists: Seq<Seq<Product>>, products: Seq<Seq<Product>>)
    requires
        grouped_lists(lists, products),
    ensures
        sorted_by_resource(lists),
{
    assert forall|idx: int, t: int| 0 <= idx < lists.len() && 0 <= t < lists[idx].len() implies resource_index(
        (#[trigger] lists[idx][t]).resource,
    ) == idx % (RESOURCE_COUNT as int) by {
        let m = idx / (RESOURCE_COUNT as int);
        let r = idx % (RESOURCE_COUNT as int);
        vstd::arithmetic::div_mod::lemma_fundamental_div_mod(idx, RESOURCE_COUNT as int);
        vstd::arithmetic::div_mod::lemma_mod_pos_bound(idx, RESOURCE_COUNT as int);
        vstd::arithmetic::div_mod::lemma_div_pos_is_pos(idx, RESOURCE_COUNT as int);
        assert(idx == m * RESOURCE_COUNT + r);
        assert(m < products.len());
        assert(is_farthest_first(lists[m * RESOURCE_COUNT + r], of_resource(products[m], r)));
        let perm = choose|perm: Seq<int>|
            {
                &&& #[trigger] is_reordering(lists[idx], of_resource(products[m], r), perm)
                &&& forall|k: int, l: int|
                    0 <= k < l < lists[idx].len() ==> (#[trigger] lists[idx][k]).distance >= (
                    #[trigger] lists[idx][l]).distance
                &&& forall|k: int, l: int|
                    0 <= k < l < lists[idx].len() && (#[trigger] lists[idx][k]).distance == (
                    #[trigger] lists[idx][l]).distance ==> perm[k] < perm[l]
            };
        lemma_of_resource_only(products[m], r);
        assert(lists[idx][t] == of_resource(products[m], r)[perm[t]]);
    }
}

/// Trading one resource between two markets keeps the ledger consistent.
proof fn lemma_trade_resource_consistent(ledger: Ledger, n: int, i: int, j: int, distance: usize, r: int)
    requires
        consistent(ledger, n),
        0 <= i < n,
        0 <= j < n,
        0 <= r < RESOURCE_COUNT,
    ensures
        consistent(trade_resource(ledger, i, j, distance, r), n),
{
    let si = i * RESOURCE_COUNT + r;
    let di = j * RESOURCE_COUNT + r;
    vstd::arithmetic::div_mod::lemma_fundamental_div_mod_converse(si, RESOURCE_COUNT as int, i, r);
    vstd::arithmetic::div_mod::lemma_fundamental_div_mod_converse(di, RESOURCE_COUNT as int, j, r);
    assert(si < n * RESOURCE_COUNT && di < n * RESOURCE_COUNT);
    let supply = ledger.1[si];
    let demand = ledger.2[di];
    let next = trade_resource(ledger, i, j, distance, r);
    let made = matched(supply, demand, distance);
    assert forall|k: int| 0 <= k < next.0.len() implies same_resource(#[trigger] next.0[k]) by {
        if k >= ledger.0.len() {
            let t = k - ledger.0.len();
            assert(next.0[k] == made[t]);
            assert(resource_index(supply[supply.len() - 1 - t].resource) == r);
            assert(resource_index(demand[demand.len() - 1 - t].resource) == r);
        }
    }
    assert forall|idx: int, t: int| 0 <= idx < next.1.len() && 0 <= t < next.1[idx].len() implies resource_index(
        (#[trigger] next.1[idx][t]).resource,
    ) == idx % (RESOURCE_COUNT as int) by {
        if idx == si {
            assert(next.1[idx][t] == supply[t]);
        } else {
            assert(next.1[idx] == ledger.1[idx]);
        }
    }
    assert forall|idx: int, t: int| 0 <= idx < next.2.len() && 0 <= t < next.2[idx].len() implies resource_index(
        (#[trigger] next.2[idx][t]).resource,
    ) == idx % (RESOURCE_COUNT as int) by {
        if idx == di {
            assert(next.2[idx][t] == demand[t]);
        } else {
            assert(next.2[idx] == ledger.2[idx]);
        }
    }
}

/// Trading the first `count` resources between two markets keeps the ledger consistent.
proof fn lemma_trade_resources_consistent(ledger: Ledger, n: int, i: int, j: int, distance: usize, count: nat)
    requires
        consistent(ledger, n),
        0 <= i < n,
        0 <= j < n,
        count <= RESOURCE_COUNT,
    ensures
        consistent(trade_resources(ledger, i, j, distance, count), n),
    decreases count,
{
    if count > 0 {
        lemma_trade_resources_consistent(ledger, n, i, j, distance, (count - 1) as nat);
        lemma_trade_resource_consistent(
            trade_resources(ledger, i, j, distance, (count - 1) as nat),
            n,
            i,
            j,
            distance,
            count - 1,
        );
    }
}

/// Trading along pairs of the first `n` markets keeps the ledger consistent.
proof fn lemma_trade_consistent(pairs: Seq<(usize, (usize, usize))>, ledger: Ledger, n: int)
    requires
        consistent(ledger, n),
        forall|k: int| 0 <= k < pairs.len() ==> (#[trigger] pairs[k]).1.0 < n && pairs[k].1.1 < n,
    ensures
        consistent(trade(pairs, ledger), n),
    decreases pairs.len(),
{
    if pairs.len() > 0 {
        assert forall|k: int| 0 <= k < pairs.drop_last().len() implies (#[trigger] pairs.drop_last()[k]).1.0 < n
            && pairs.drop_last()[k].1.1 < n by {
            assert(pairs.drop_last()[k] == pairs[k]);
        }
        lemma_trade_consistent(pairs.drop_last(), ledger, n);
        let pair = pairs.last();
        assert(pair == pairs[pairs.len() - 1]);
        lemma_trade_resources_consistent(
            trade(pairs.drop_last(), ledger),
            n,
            pair.1.0 as int,
            pair.1.1 as int,
            pair.0,
            RESOURCE_COUNT as nat,
        );
    }
}

/// Law: every allocation of a trading round over grouped lists matches supply and demand of
/// the same resource.
pub proof fn law_round_matches_resources(
    pairs: Seq<(usize, (usize, usize))>,
    supply: Seq<Seq<Product>>,
    demand: Seq<Seq<Product>>,
    markets: Seq<Market>,
)
    requires
        grouped_lists(supply, supplies(markets)),
        grouped_lists(demand, demands(markets)),
        forall|k: int| 0 <= k < pairs.len() ==> (#[trigger] pairs[k]).1.0 < markets.len() && pairs[k].1.1
            < markets.len(),
    ensures
        forall|k: int|
            0 <= k < round(pairs, supply, demand).len() ==> same_resource(
                #[trigger] round(pairs, supply, demand)[k],
            ),
{
    lemma_grouped_sorted(supply, supplies(markets));
    lemma_grouped_sorted(demand, demands(markets));
    lemma_trade_consistent(pairs, (Seq::empty(), supply, demand), markets.len() as int);
}


/// The number of allocations of resource `r`.
pub open spec fn allocations_of(allocations: Seq<Allocation>, r: int) -> nat
    decreases allocations.len(),
{
    if allocations.len() == 0 {
        0
    } else {
        allocations_of(allocations.drop_last(), r) + if resource_index(
            allocations.last().supply.resource,
        ) == r {
            1nat
        } else {
            0nat
        }
    }
}

/// The number of units of resource `r` in the lists of the first `n` markets.
pub open spec fn units(lists: Seq<Seq<Product>>, r: int, n: nat) -> nat
    decreases n,
{
    if n == 0 {
        0
    } else {
        units(lists, r, (n - 1) as nat) + lists[(n - 1) * RESOURCE_COUNT + r].len()
    }
}

/// The number of units of resource `r` among the products of the first `n` markets.
pub open spec fn total(products: Seq<Seq<Product>>, r: int, n: nat) -> nat
    decreases n,
{
    if n == 0 {
        0
    } else {
        total(products, r, (n - 1) as nat) + of_resource(products[n - 1], r).len()
    }
}

/// The smaller of two counts.
pub open spec fn min_count(a: nat, b: nat) -> nat {
    if a <= b {
        a
    } else {
        b
    }
}

/// Counting allocations distributes over concatenation.
proof fn lemma_allocations_of_append(a: Seq<Allocation>, b: Seq<Allocation>, r: int)
    ensures
        allocations_of(a + b, r) == allocations_of(a, r) + allocations_of(b, r),
    decreases b.len(),
{
    if b.len() == 0 {
        assert(a + b =~= a);
    } else {
        lemma_allocations_of_append(a, b.drop_last(), r);
        assert((a + b).drop_last() =~= a + b.drop_last());
    }
}

/// Allocations all of resource `q` count as allocations of `r` exactly when `q == r`.
proof fn lemma_allocations_of_uniform(allocations: Seq<Allocation>, q: int, r: int)
    requires
        forall|k: int|
            0 <= k < allocations.len() ==> resource_index((#[trigger] allocations[k]).supply.resource) == q,
    ensures
        allocations_of(allocations, r) == (if q == r { allocations.len() } else { 0 }),
    decreases allocations.len(),
{
    if allocations.len() > 0 {
        lemma_allocations_of_uniform(allocations.drop_last(), q, r);
    }
}

/// Replacing one list changes the units of its resource by the change in its length.
proof fn lemma_units_update(lists: Seq<Seq<Product>>, r: int, n: nat, i: int, q: int, list: Seq<Product>)
    requires
        0 <= r < RESOURCE_COUNT,
        0 <= q < RESOURCE_COUNT,
        0 <= i,
        lists.len() >= n * RESOURCE_COUNT,
        i * RESOURCE_COUNT + q < lists.len(),
    ensures
        units(lists.update(i * RESOURCE_COUNT + q, list), r, n) + (if q == r && i < n {
            lists[i * RESOURCE_COUNT + q].len() as int
        } else {
            0
        }) == units(lists, r, n) + (if q == r && i < n { list.len() as int } else { 0 }),
    decreases n,
{
    if n > 0 {
        lemma_units_update(lists, r, (n - 1) as nat, i, q, list);
        let idx = (n - 1) * RESOURCE_COUNT + r;
        if idx == i * RESOURCE_COUNT + q {
            assert(n - 1 == i && q == r);
        }
    }
}

/// When every list of resource `r` among the first `n` markets is empty, there are no units.
proof fn lemma_units_zero(lists: Seq<Seq<Product>>, r: int, n: nat)
    requires
        forall|m: int| 0 <= m < n ==> (#[trigger] lists[m * RESOURCE_COUNT + r]).len() == 0,
    ensures
        units(lists, r, n) == 0,
    decreases n,
{
    if n > 0 {
        lemma_units_zero(lists, r, (n - 1) as nat);
    }
}

/// Grouped lists hold as many units of each resource as the products they were grouped from.
proof fn lemma_units_total(lists: Seq<Seq<Product>>, products: Seq<Seq<Product>>, r: int, n: nat)
    requires
        grouped_lists(lists, products),
        n <= products.len(),
        0 <= r < RESOURCE_COUNT,
    ensures
        units(lists, r, n) == total(products, r, n),
    decreases n,
{
    if n > 0 {
        lemma_units_total(lists, products, r, (n - 1) as nat);
        let m = n - 1;
        assert(is_farthest_first(lists[m * RESOURCE_COUNT + r], of_resource(products[m], r)));
    }
}

/// The ledger `ledger` holds, for every resource, the units of `start` less those allocated.
pub open spec fn conserves(ledger: Ledger, start: Ledger, n: nat) -> bool {
    forall|r: int|
        0 <= r < RESOURCE_COUNT ==> {
            &&& #[trigger] allocations_of(ledger.0, r) + units(ledger.1, r, n) == units(start.1, r, n)
            &&& allocations_of(ledger.0, r) + units(ledger.2, r, n) == units(start.2, r, n)
        }
}

/// No list of `after` is longer than the same list of `before`.
pub open spec fn shrinks(after: Ledger, before: Ledger) -> bool {
    &&& after.1.len() == before.1.len()
    &&& after.2.len() == before.2.len()
    &&& forall|idx: int| 0 <= idx < after.1.len() ==> (#[trigger] after.1[idx]).len() <= before.1[idx].len()
    &&& forall|idx: int| 0 <= idx < after.2.len() ==> (#[trigger] after.2[idx]).len() <= before.2[idx].len()
}

/// Market `i`'s supply of resource `r` or market `j`'s demand for it is used up.
pub open spec fn emptied(ledger: Ledger, i: int, j: int, r: int) -> bool {
    ledger.1[i * RESOURCE_COUNT + r].len() == 0 || ledger.2[j * RESOURCE_COUNT + r].len() == 0
}

/// After trading, the supplier's or the consumer's list of each resource is empty, for every
/// pair of `pairs`.
pub open spec fn exhausted(ledger: Ledger, pairs: Seq<(usize, (usize, usize))>) -> bool {
    forall|k: int, r: int|
        0 <= k < pairs.len() && 0 <= r < RESOURCE_COUNT ==> #[trigger] emptied(
            ledger,
            pairs[k].1.0 as int,
            pairs[k].1.1 as int,
            r,
        )
}

/// Trading one resource between two markets conserves units and shrinks lists, leaving the
/// supplier's or the consumer's list of that resource empty.
proof fn lemma_trade_resource_conserves(ledger: Ledger, start: Ledger, n: nat, i: int, j: int, distance: usize, q: int)
    requires
        consistent(ledger, n as int),
        conserves(ledger, start, n),
        0 <= i < n,
        0 <= j < n,
        0 <= q < RESOURCE_COUNT,
    ensures
        conserves(trade_resource(ledger, i, j, distance, q), start, n),
        shrinks(trade_resource(ledger, i, j, distance, q), ledger),
        emptied(trade_resource(ledger, i, j, distance, q), i, j, q),
{
    let si = i * RESOURCE_COUNT + q;
    let di = j * RESOURCE_COUNT + q;
    assert(si < n * RESOURCE_COUNT && di < n * RESOURCE_COUNT);
    let supply = ledger.1[si];
    let demand = ledger.2[di];
    let count = match_count(supply, demand);
    let next = trade_resource(ledger, i, j, distance, q);
    let made = matched(supply, demand, distance);
    vstd::arithmetic::div_mod::lemma_fundamental_div_mod_converse(si, RESOURCE_COUNT as int, i, q);
    assert forall|k: int| 0 <= k < made.len() implies resource_index((#[trigger] made[k]).supply.resource) == q by {
        assert(resource_index(supply[supply.len() - 1 - k].resource) == q);
    }
    assert forall|r: int| 0 <= r < RESOURCE_COUNT implies {
        &&& #[trigger] allocations_of(next.0, r) + units(next.1, r, n) == units(start.1, r, n)
        &&& allocations_of(next.0, r) + units(next.2, r, n) == units(start.2, r, n)
    } by {
        lemma_allocations_of_append(ledger.0, made, r);
        lemma_allocations_of_uniform(made, q, r);
        lemma_units_update(ledger.1, r, n, i, q, supply.take(supply.len() - count));
        lemma_units_update(ledger.2, r, n, j, q, demand.take(demand.len() - count));
    }
}

/// Trading the first `count` resources between two markets conserves units, shrinks lists,
/// and leaves the supplier's or the consumer's list of each of them empty.
proof fn lemma_trade_resources_conserves(ledger: Ledger, start: Ledger, n: nat, i: int, j: int, distance: usize, count: nat)
    requires
        consistent(ledger, n as int),
        conserves(ledger, start, n),
        0 <= i < n,
        0 <= j < n,
        count <= RESOURCE_COUNT,
    ensures
        conserves(trade_resources(ledger, i, j, distance, count), start, n),
        shrinks(trade_resources(ledger, i, j, distance, count), ledger),
        forall|r: int| 0 <= r < count ==> #[trigger] emptied(trade_resources(ledger, i, j, distance, count), i, j, r),
    decreases count,
{
    if count > 0 {
        lemma_trade_resources_conserves(ledger, start, n, i, j, distance, (count - 1) as nat);
        lemma_trade_resources_consistent(ledger, n as int, i, j, distance, (count - 1) as nat);
        let before = trade_resources(ledger, i, j, distance, (count - 1) as nat);
        lemma_trade_resource_conserves(before, start, n, i, j, distance, count - 1);
        let after = trade_resources(ledger, i, j, distance, count);
        assert forall|r: int| 0 <= r < count implies #[trigger] emptied(after, i, j, r) by {
            if r < count - 1 {
                assert(emptied(before, i, j, r));
                assert(i * RESOURCE_COUNT + r < after.1.len());
                assert(j * RESOURCE_COUNT + r < after.2.len());
            }
        }
    }
}

/// Trading along `pairs` conserves units and leaves, for every traded pair and resource, the
/// supplier's or the consumer's list empty.
proof fn lemma_trade_conserves(pairs: Seq<(usize, (usize, usize))>, start: Ledger, n: nat)
    requires
        consistent(start, n as int),
        start.0.len() == 0,
        forall|k: int| 0 <= k < pairs.len() ==> (#[trigger] pairs[k]).1.0 < n && pairs[k].1.1 < n,
    ensures
        conserves(trade(pairs, start), start, n),
        consistent(trade(pairs, start), n as int),
        exhausted(trade(pairs, start), pairs),
    decreases pairs.len(),
{
    if pairs.len() == 0 {
        assert(conserves(start, start, n));
    } else {
        let rest = pairs.drop_last();
        assert forall|k: int| 0 <= k < rest.len() implies (#[trigger] rest[k]).1.0 < n && rest[k].1.1 < n by {
            assert(rest[k] == pairs[k]);
        }
        lemma_trade_conserves(rest, start, n);
        let before = trade(rest, start);
        let pair = pairs.last();
        assert(pair == pairs[pairs.len() - 1]);
        lemma_trade_resources_conserves(
            before,
            start,
            n,
            pair.1.0 as int,
            pair.1.1 as int,
            pair.0,
            RESOURCE_COUNT as nat,
        );
        lemma_trade_consistent(pairs, start, n as int);
        let after = trade(pairs, start);
        assert forall|k: int, r: int| 0 <= k < pairs.len() && 0 <= r < RESOURCE_COUNT implies #[trigger] emptied(
            after,
            pairs[k].1.0 as int,
            pairs[k].1.1 as int,
            r,
        ) by {
            if k < pairs.len() - 1 {
                assert(rest[k] == pairs[k]);
                assert(emptied(before, rest[k].1.0 as int, rest[k].1.1 as int, r));
                assert(pairs[k].1.0 * RESOURCE_COUNT + r < after.1.len());
                assert(pairs[k].1.1 * RESOURCE_COUNT + r < after.2.len());
            }
        }
    }
}

/// The pair `(i, j)` of the first `n` markets stands at position `i * n + j` of the candidates.
proof fn lemma_candidate_pair(n: int, distances: Seq<Seq<usize>>, i: int, j: int)
    requires
        0 <= i < n,
        0 <= j < n,
        n <= MARKETS,
    ensures
        0 <= i * n + j < n * n,
        candidate_pairs(n, distances)[i * n + j].1.0 == i,
        candidate_pairs(n, distances)[i * n + j].1.1 == j,
{
    crate::grid::lemma_row_major(n, j, i);
    assert(i * n + j < n * n) by (nonlinear_arith)
        requires
            0 <= i < n,
            0 <= j < n,
    ;
}

/// A reordering takes every position of its input.
proof fn lemma_reordering_onto<A>(out: Seq<A>, inp: Seq<A>, perm: Seq<int>, u: int)
    requires
        is_reordering(out, inp, perm),
        0 <= u < inp.len(),
    ensures
        exists|k: int| 0 <= k < perm.len() && perm[k] == u,
{
    assert forall|a: int, b: int| 0 <= a < perm.len() && 0 <= b < perm.len() && a != b implies perm[a]
        != perm[b] by {
        if a < b {
            assert(perm[a] != perm[b]);
        } else {
            assert(perm[b] != perm[a]);
        }
    }
    assert(perm.no_duplicates());
    perm.unique_seq_to_set();
    let range = vstd::set_lib::set_int_range(0, inp.len() as int);
    vstd::set_lib::lemma_int_range(0, inp.len() as int);
    assert forall|x: int| perm.to_set().contains(x) implies range.contains(x) by {
        assert(perm.contains(x));
        let k = choose|k: int| 0 <= k < perm.len() && perm[k] == x;
        assert(0 <= perm[k] < inp.len());
    }
    vstd::set_lib::lemma_len_subset(perm.to_set(), range);
    vstd::set_lib::lemma_subset_equality(perm.to_set(), range);
    assert(range.contains(u));
    assert(perm.to_set().contains(u));
    assert(perm.contains(u));
}

/// The candidate pairs, in any order, name markets among the first `n` only.
proof fn lemma_sorted_pairs_bounded(pairs: Seq<(usize, (usize, usize))>, n: int, distances: Seq<Seq<usize>>)
    requires
        is_stable_sort_by_key(pairs, candidate_pairs(n, distances)),
        0 <= n <= MARKETS,
    ensures
        forall|k: int| 0 <= k < pairs.len() ==> (#[trigger] pairs[k]).1.0 < n && pairs[k].1.1 < n,
{
    let cands = candidate_pairs(n, distances);
    let perm = choose|perm: Seq<int>| is_reordering(pairs, cands, perm);
    assert forall|k: int| 0 <= k < pairs.len() implies (#[trigger] pairs[k]).1.0 < n && pairs[k].1.1 < n by {
        let u = perm[k];
        assert(pairs[k] == cands[u]);
        crate::grid::lemma_position_bounds(n as u32, n as u32, u);
    }
}

/// The candidate pairs, in any order, hold every ordered pair of the first `n` markets.
proof fn lemma_sorted_pairs_cover(pairs: Seq<(usize, (usize, usize))>, n: int, distances: Seq<Seq<usize>>, i: int, j: int)
    requires
        is_stable_sort_by_key(pairs, candidate_pairs(n, distances)),
        0 <= i < n,
        0 <= j < n,
        n <= MARKETS,
    ensures
        exists|k: int| 0 <= k < pairs.len() && pairs[k].1.0 == i && pairs[k].1.1 == j,
{
    let cands = candidate_pairs(n, distances);
    let perm = choose|perm: Seq<int>| is_reordering(pairs, cands, perm);
    lemma_candidate_pair(n, distances, i, j);
    lemma_reordering_onto(pairs, cands, perm, i * n + j);
    let k = choose|k: int| 0 <= k < perm.len() && perm[k] == i * n + j;
    assert(pairs[k] == cands[perm[k]]);
}

/// Law: in a trading round over every ordered pair of markets, the number of allocations of
/// each resource is the smaller of the markets' total supply of it and their total demand for
/// it. No unit is matched twice, and trading only ends once, for every resource, all supply or
/// all demand is used up.
pub proof fn law_round_allocates_min(
    pairs: Seq<(usize, (usize, usize))>,
    supply: Seq<Seq<Product>>,
    demand: Seq<Seq<Product>>,
    markets: Seq<Market>,
    distances: Seq<Seq<usize>>,
    r: int,
)
    requires
        markets.len() <= MARKETS,
        grouped_lists(supply, supplies(markets)),
        grouped_lists(demand, demands(markets)),
        is_stable_sort_by_key(pairs, candidate_pairs(markets.len() as int, distances)),
        0 <= r < RESOURCE_COUNT,
    ensures
        allocations_of(round(pairs, supply, demand), r) == min_count(
            total(supplies(markets), r, markets.len()),
            total(demands(markets), r, markets.len()),
        ),
{
    let n = markets.len();
    lemma_sorted_pairs_bounded(pairs, n as int, distances);
    let start = (Seq::<Allocation>::empty(), supply, demand);
    lemma_grouped_sorted(supply, supplies(markets));
    lemma_grouped_sorted(demand, demands(markets));
    assert(consistent(start, n as int));
    lemma_trade_conserves(pairs, start, n);
    let end = trade(pairs, start);
    lemma_units_total(supply, supplies(markets), r, n);
    lemma_units_total(demand, demands(markets), r, n);
    assert(allocations_of(end.0, r) + units(end.1, r, n) == units(supply, r, n));
    assert forall|i: int, j: int| 0 <= i < n && 0 <= j < n implies #[trigger] emptied(end, i, j, r) by {
        lemma_sorted_pairs_cover(pairs, n as int, distances, i, j);
        let k = choose|k: int| 0 <= k < pairs.len() && pairs[k].1.0 == i && pairs[k].1.1 == j;
        assert(emptied(end, pairs[k].1.0 as int, pairs[k].1.1 as int, r));
    }
    if exists|i: int| 0 <= i < n && (#[trigger] end.1[i * RESOURCE_COUNT + r]).len() > 0 {
        let i = choose|i: int| 0 <= i < n && (#[trigger] end.1[i * RESOURCE_COUNT + r]).len() > 0;
        assert forall|j: int| 0 <= j < n implies (#[trigger] end.2[j * RESOURCE_COUNT + r]).len() == 0 by {
            assert(emptied(end, i, j, r));
        }
        lemma_units_zero(end.2, r, n);
    } else {
        lemma_units_zero(end.1, r, n);
    }
}

/// Each allocation is between markets no farther apart than the next one's.
pub open spec fn nearest_first(allocations: Seq<Allocation>) -> bool {
    forall|k: int, l: int|
        0 <= k < l < allocations.len() ==> (#[trigger] allocations[k]).distance <= (
        #[trigger] allocations[l]).distance
}

/// The pairs are in ascending order of distance.
pub open spec fn ascending(pairs: Seq<(usize, (usize, usize))>) -> bool {
    forall|k: int, l: int| 0 <= k < l < pairs.len() ==> (#[trigger] pairs[k]).0 <= (#[trigger] pairs[l]).0
}

/// A stable sort by key leaves its entries in ascending order of key.
proof fn lemma_stable_sort_ascending(out: Seq<(usize, (usize, usize))>, inp: Seq<(usize, (usize, usize))>)
    requires
        is_stable_sort_by_key(out, inp),
    ensures
        ascending(out),
{
    let perm = choose|perm: Seq<int>|
        {
            &&& #[trigger] is_reordering(out, inp, perm)
            &&& forall|k: int, l: int| 0 <= k < l < out.len() ==> (#[trigger] out[k]).0 <= (#[trigger] out[l]).0
            &&& forall|k: int, l: int|
                0 <= k < l < out.len() && (#[trigger] out[k]).0 == (#[trigger] out[l]).0 ==> perm[k] < perm[l]
        };
}

/// Trading between two markets keeps the allocations made so far and appends allocations at
/// the distance between the markets.
proof fn lemma_trade_resources_appends(ledger: Ledger, i: int, j: int, distance: usize, count: nat)
    ensures
        ledger.0.len() <= trade_resources(ledger, i, j, distance, count).0.len(),
        forall|k: int|
            0 <= k < ledger.0.len() ==> #[trigger] trade_resources(ledger, i, j, distance, count).0[k]
                == ledger.0[k],
        forall|k: int|
            ledger.0.len() <= k < trade_resources(ledger, i, j, distance, count).0.len()
                ==> (#[trigger] trade_resources(ledger, i, j, distance, count).0[k]).distance == distance,
    decreases count,
{
    if count > 0 {
        lemma_trade_resources_appends(ledger, i, j, distance, (count - 1) as nat);
        let before = trade_resources(ledger, i, j, distance, (count - 1) as nat);
        let after = trade_resources(ledger, i, j, distance, count);
        assert forall|k: int| 0 <= k < ledger.0.len() implies #[trigger] after.0[k] == ledger.0[k] by {
            assert(after.0[k] == before.0[k]);
        }
        assert forall|k: int| ledger.0.len() <= k < after.0.len() implies (#[trigger] after.0[k]).distance
            == distance by {
            if k < before.0.len() {
                assert(after.0[k] == before.0[k]);
            }
        }
    }
}

/// Trading along pairs in ascending order of distance makes allocations nearest first, none
/// farther apart than the last pair.
proof fn lemma_trade_nearest_first(pairs: Seq<(usize, (usize, usize))>, start: Ledger)
    requires
        start.0.len() == 0,
        ascending(pairs),
    ensures
        nearest_first(trade(pairs, start).0),
        pairs.len() > 0 ==> forall|k: int|
            0 <= k < trade(pairs, start).0.len() ==> (#[trigger] trade(pairs, start).0[k]).distance
                <= pairs.last().0,
    decreases pairs.len(),
{
    if pairs.len() > 0 {
        let rest = pairs.drop_last();
        lemma_trade_nearest_first(rest, start);
        let before = trade(rest, start);
        let pair = pairs.last();
        lemma_trade_resources_appends(before, pair.1.0 as int, pair.1.1 as int, pair.0, RESOURCE_COUNT as nat);
        let after = trade(pairs, start);
        assert forall|k: int| 0 <= k < before.0.len() implies (#[trigger] before.0[k]).distance <= pair.0 by {
            assert(rest.len() > 0);
            assert(rest.last() == pairs[rest.len() - 1]);
            assert(pairs[rest.len() - 1].0 <= pairs[pairs.len() - 1].0);
        }
        assert forall|k: int, l: int| 0 <= k < l < after.0.len() implies (#[trigger] after.0[k]).distance
            <= (#[trigger] after.0[l]).distance by {
            if l < before.0.len() {
                assert(after.0[k] == before.0[k]);
                assert(after.0[l] == before.0[l]);
            } else if k < before.0.len() {
                assert(after.0[k] == before.0[k]);
            }
        }
        assert forall|k: int| 0 <= k < after.0.len() implies (#[trigger] after.0[k]).distance <= pairs.last().0 by {
            if k < before.0.len() {
                assert(after.0[k] == before.0[k]);
            }
        }
    }
}

/// Law: a trading round along pairs in ascending order of distance makes its allocations
/// nearest first.
pub proof fn law_round_nearest_first(
    pairs: Seq<(usize, (usize, usize))>,
    supply: Seq<Seq<Product>>,
    demand: Seq<Seq<Product>>,
)
    requires
        ascending(pairs),
    ensures
        nearest_first(round(pairs, supply, demand)),
{
    lemma_trade_nearest_first(pairs, (Seq::empty(), supply, demand));
}

/// The supply units that `allocations` use, in order.
pub open spec fn supplied(allocations: Seq<Allocation>) -> Seq<Product> {
    Seq::new(allocations.len(), |k: int| allocations[k].supply)
}

/// The demand units that `allocations` meet, in order.
pub open spec fn demanded(allocations: Seq<Allocation>) -> Seq<Product> {
    Seq::new(allocations.len(), |k: int| allocations[k].demand)
}

/// Every unit of every list, counted with repetition.
pub open spec fn all_units(lists: Seq<Seq<Product>>) -> Multiset<Product>
    decreases lists.len(),
{
    if lists.len() == 0 {
        Multiset::empty()
    } else {
        all_units(lists.drop_last()).add(lists.last().to_multiset())
    }
}

/// Law: matching two lists allocates exactly the units it removes from them. The supply units
/// of the allocations, together with the supply left, are the supply before, unit for unit,
/// and the same holds of demand; the units left are the ones at the front of each list, so
/// the units allocated are those at its end, the nearest in a list sorted farthest first.
pub proof fn law_matching_allocates_removed_units(supply: Seq<Product>, demand: Seq<Product>, distance: usize)
    ensures
        supplied(matched(supply, demand, distance)).to_multiset().add(
            supply.take(supply.len() - match_count(supply, demand)).to_multiset(),
        ) =~= supply.to_multiset(),
        demanded(matched(supply, demand, distance)).to_multiset().add(
            demand.take(demand.len() - match_count(supply, demand)).to_multiset(),
        ) =~= demand.to_multiset(),
        forall|t: int|
            0 <= t < matched(supply, demand, distance).len() ==> (#[trigger] matched(supply, demand, distance)[t]).distance
                == distance,
{
    broadcast use vstd::seq_lib::group_to_multiset_ensures;

    let count = match_count(supply, demand);
    let m = matched(supply, demand, distance);
    let s_keep = supply.take(supply.len() - count);
    let s_gone = supply.skip(supply.len() - count);
    assert(supplied(m) =~= s_gone.reverse());
    s_gone.lemma_reverse_to_multiset();
    assert(s_keep + s_gone =~= supply);
    vstd::seq_lib::lemma_multiset_commutative(s_keep, s_gone);
    let d_keep = demand.take(demand.len() - count);
    let d_gone = demand.skip(demand.len() - count);
    assert(demanded(m) =~= d_gone.reverse());
    d_gone.lemma_reverse_to_multiset();
    assert(d_keep + d_gone =~= demand);
    vstd::seq_lib::lemma_multiset_commutative(d_keep, d_gone);
}

/// Replacing one list changes the units of all lists by the difference.
proof fn lemma_all_units_update(lists: Seq<Seq<Product>>, i: int, list: Seq<Product>)
    requires
        0 <= i < lists.len(),
    ensures
        all_units(lists.update(i, list)).add(lists[i].to_multiset()) =~= all_units(lists).add(
            list.to_multiset(),
        ),
    decreases lists.len(),
{
    broadcast use vstd::multiset::group_multiset_axioms;

    let updated = lists.update(i, list);
    let li = lists[i].to_multiset();
    let l = list.to_multiset();
    if i == lists.len() - 1 {
        assert(updated.drop_last() =~= lists.drop_last());
        assert(updated.last() == list);
        let a = all_units(lists.drop_last());
        assert(all_units(updated) == a.add(l));
        assert(all_units(lists) == a.add(li));
        assert forall|v: Product| #[trigger] all_units(updated).add(li).count(v) == all_units(lists).add(l).count(v) by {}
    } else {
        lemma_all_units_update(lists.drop_last(), i, list);
        assert(updated.drop_last() =~= lists.drop_last().update(i, list));
        assert(updated.last() == lists.last());
        assert(lists.drop_last()[i] == lists[i]);
        let last = lists.last().to_multiset();
        let a = all_units(lists.drop_last().update(i, list));
        let b = all_units(lists.drop_last());
        assert(all_units(updated) == a.add(last));
        assert(all_units(lists) == b.add(last));
        assert forall|v: Product| #[trigger] all_units(updated).add(li).count(v) == all_units(lists).add(l).count(v) by {
            assert(a.add(li).count(v) == b.add(l).count(v));
        }
    }
}

/// Trading one resource between two markets moves units from the lists to the allocations,
/// unit for unit.
proof fn lemma_trade_resource_moves_units(ledger: Ledger, i: int, j: int, distance: usize, q: int)
    requires
        0 <= i * RESOURCE_COUNT + q < ledger.1.len(),
        0 <= j * RESOURCE_COUNT + q < ledger.2.len(),
    ensures
        supplied(trade_resource(ledger, i, j, distance, q).0).to_multiset().add(
            all_units(trade_resource(ledger, i, j, distance, q).1),
        ) =~= supplied(ledger.0).to_multiset().add(all_units(ledger.1)),
        demanded(trade_resource(ledger, i, j, distance, q).0).to_multiset().add(
            all_units(trade_resource(ledger, i, j, distance, q).2),
        ) =~= demanded(ledger.0).to_multiset().add(all_units(ledger.2)),
        trade_resource(ledger, i, j, distance, q).1.len() == ledger.1.len(),
        trade_resource(ledger, i, j, distance, q).2.len() == ledger.2.len(),
{
    broadcast use vstd::multiset::group_multiset_axioms;

    let si = i * RESOURCE_COUNT + q;
    let di = j * RESOURCE_COUNT + q;
    let supply = ledger.1[si];
    let demand = ledger.2[di];
    let count = match_count(supply, demand);
    let m = matched(supply, demand, distance);
    let next = trade_resource(ledger, i, j, distance, q);
    law_matching_allocates_removed_units(supply, demand, distance);
    assert(supplied(next.0) =~= supplied(ledger.0) + supplied(m));
    assert(demanded(next.0) =~= demanded(ledger.0) + demanded(m));
    vstd::seq_lib::lemma_multiset_commutative(supplied(ledger.0), supplied(m));
    vstd::seq_lib::lemma_multiset_commutative(demanded(ledger.0), demanded(m));
    let s_keep = supply.take(supply.len() - count);
    let d_keep = demand.take(demand.len() - count);
    lemma_all_units_update(ledger.1, si, s_keep);
    lemma_all_units_update(ledger.2, di, d_keep);
    let sa = supplied(ledger.0).to_multiset();
    let sm = supplied(m).to_multiset();
    assert forall|v: Product| #[trigger] supplied(next.0).to_multiset().add(all_units(next.1)).count(v)
        == sa.add(all_units(ledger.1)).count(v) by {
        assert(sm.add(s_keep.to_multiset()).count(v) == supply.to_multiset().count(v));
        assert(all_units(next.1).add(supply.to_multiset()).count(v) == all_units(ledger.1).add(
            s_keep.to_multiset(),
        ).count(v));
        assert(supplied(next.0).to_multiset() == sa.add(sm));
    }
    let da = demanded(ledger.0).to_multiset();
    let dm = demanded(m).to_multiset();
    assert forall|v: Product| #[trigger] demanded(next.0).to_multiset().add(all_units(next.2)).count(v)
        == da.add(all_units(ledger.2)).count(v) by {
        assert(dm.add(d_keep.to_multiset()).count(v) == demand.to_multiset().count(v));
        assert(all_units(next.2).add(demand.to_multiset()).count(v) == all_units(ledger.2).add(
            d_keep.to_multiset(),
        ).count(v));
        assert(demanded(next.0).to_multiset() == da.add(dm));
    }
}

/// Trading the first `count` resources between two markets moves units from the lists to the
/// allocations, unit for unit.
proof fn lemma_trade_resources_moves_units(ledger: Ledger, n: int, i: int, j: int, distance: usize, count: nat)
    requires
        ledger.1.len() == n * RESOURCE_COUNT,
        ledger.2.len() == n * RESOURCE_COUNT,
        0 <= i < n,
        0 <= j < n,
        count <= RESOURCE_COUNT,
    ensures
        supplied(trade_resources(ledger, i, j, distance, count).0).to_multiset().add(
            all_units(trade_resources(ledger, i, j, distance, count).1),
        ) =~= supplied(ledger.0).to_multiset().add(all_units(ledger.1)),
        demanded(trade_resources(ledger, i, j, distance, count).0).to_multiset().add(
            all_units(trade_resources(ledger, i, j, distance, count).2),
        ) =~= demanded(ledger.0).to_multiset().add(all_units(ledger.2)),
        trade_resources(ledger, i, j, distance, count).1.len() == ledger.1.len(),
        trade_resources(ledger, i, j, distance, count).2.len() == ledger.2.len(),
    decreases count,
{
    if count > 0 {
        lemma_trade_resources_moves_units(ledger, n, i, j, distance, (count - 1) as nat);
        let before = trade_resources(ledger, i, j, distance, (count - 1) as nat);
        assert(i * RESOURCE_COUNT + (count - 1) < n * RESOURCE_COUNT) by (nonlinear_arith)
            requires
                0 <= i < n,
                count <= RESOURCE_COUNT,
                count > 0,
        ;
        assert(j * RESOURCE_COUNT + (count - 1) < n * RESOURCE_COUNT) by (nonlinear_arith)
            requires
                0 <= j < n,
                count <= RESOURCE_COUNT,
                count > 0,
        ;
        lemma_trade_resource_moves_units(before, i, j, distance, count - 1);
    }
}

/// Trading along `pairs` moves units from the lists to the allocations, unit for unit.
proof fn lemma_trade_moves_units(pairs: Seq<(usize, (usize, usize))>, ledger: Ledger, n: int)
    requires
        ledger.1.len() == n * RESOURCE_COUNT,
        ledger.2.len() == n * RESOURCE_COUNT,
        forall|k: int| 0 <= k < pairs.len() ==> (#[trigger] pairs[k]).1.0 < n && pairs[k].1.1 < n,
    ensures
        supplied(trade(pairs, ledger).0).to_multiset().add(all_units(trade(pairs, ledger).1))
            =~= supplied(ledger.0).to_multiset().add(all_units(ledger.1)),
        demanded(trade(pairs, ledger).0).to_multiset().add(all_units(trade(pairs, ledger).2))
            =~= demanded(ledger.0).to_multiset().add(all_units(ledger.2)),
        trade(pairs, ledger).1.len() == ledger.1.len(),
        trade(pairs, ledger).2.len() == ledger.2.len(),
    decreases pairs.len(),
{
    if pairs.len() > 0 {
        let rest = pairs.drop_last();
        assert forall|k: int| 0 <= k < rest.len() implies (#[trigger] rest[k]).1.0 < n && rest[k].1.1 < n by {
            assert(rest[k] == pairs[k]);
        }
        lemma_trade_moves_units(rest, ledger, n);
        let pair = pairs.last();
        assert(pair == pairs[pairs.len() - 1]);
        lemma_trade_resources_moves_units(
            trade(rest, ledger),
            n,
            pair.1.0 as int,
            pair.1.1 as int,
            pair.0,
            RESOURCE_COUNT as nat,
        );
    }
}

/// Law: a trading round allocates each unit of supply and of demand at most once. The supply
/// units of its allocations, together with the supply left in the lists, are exactly the units
/// of supply it started with, and likewise for demand; in particular no unit is allocated more
/// often than the lists held it.
pub proof fn law_round_uses_each_unit_once(
    pairs: Seq<(usize, (usize, usize))>,
    supply: Seq<Seq<Product>>,
    demand: Seq<Seq<Product>>,
    n: int,
)
    requires
        supply.len() == n * RESOURCE_COUNT,
        demand.len() == n * RESOURCE_COUNT,
        forall|k: int| 0 <= k < pairs.len() ==> (#[trigger] pairs[k]).1.0 < n && pairs[k].1.1 < n,
    ensures
        supplied(round(pairs, supply, demand)).to_multiset().add(
            all_units(trade(pairs, (Seq::empty(), supply, demand)).1),
        ) =~= all_units(supply),
        demanded(round(pairs, supply, demand)).to_multiset().add(
            all_units(trade(pairs, (Seq::empty(), supply, demand)).2),
        ) =~= all_units(demand),
        supplied(round(pairs, supply, demand)).to_multiset().subset_of(all_units(supply)),
        demanded(round(pairs, supply, demand)).to_multiset().subset_of(all_units(demand)),
{
    broadcast use vstd::seq_lib::group_to_multiset_ensures;
    broadcast use vstd::multiset::group_multiset_axioms;

    let start = (Seq::<Allocation>::empty(), supply, demand);
    lemma_trade_moves_units(pairs, start, n);
    assert(supplied(start.0) =~= Seq::<Product>::empty());
    assert(demanded(start.0) =~= Seq::<Product>::empty());
    assert(supplied(start.0).to_multiset() =~= Multiset::empty());
    assert(demanded(start.0).to_multiset() =~= Multiset::empty());
    let end = trade(pairs, start);
    let su = supplied(end.0).to_multiset();
    let de = demanded(end.0).to_multiset();
    assert forall|v: Product| #[trigger] su.add(all_units(end.1)).count(v) == all_units(supply).count(v) by {
        assert(Multiset::<Product>::empty().add(all_units(supply)).count(v) == all_units(supply).count(v));
    }
    assert forall|v: Product| #[trigger] de.add(all_units(end.2)).count(v) == all_units(demand).count(v) by {
        assert(Multiset::<Product>::empty().add(all_units(demand)).count(v) == all_units(demand).count(v));
    }
    assert forall|v: Product| #[trigger] su.count(v) <= all_units(supply).count(v) by {
        assert(su.add(all_units(end.1)).count(v) == all_units(supply).count(v));
    }
    assert forall|v: Product| #[trigger] de.count(v) <= all_units(demand).count(v) by {
        assert(de.add(all_units(end.2)).count(v) == all_units(demand).count(v));
    }
}

} // verus!


