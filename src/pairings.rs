use std::collections::VecDeque;
use vstd::prelude::*;

verus! {

/// A game pairing `((a, b), (c, d))`: team one is `(a, b)`, team two `(c, d)`.
/// `a` and `c` play on the first board, `b` and `d` on the second.
pub type Pairing = ((u8, u8), (u8, u8));

/// Every unordered pair `(l[a], l[b])` with `a < b`, ordered by `b`, then `a`.
pub open spec fn pairs_of(l: Seq<u8>) -> Seq<(u8, u8)>
    decreases l.len(),
{
    if l.len() == 0 {
        seq![]
    } else {
        pairs_of(l.drop_last()) + Seq::new((l.len() - 1) as nat, |a: int| (l[a], l.last()))
    }
}

/// The player numbers `1..=n`.
pub open spec fn numbers(n: nat) -> Seq<u8> {
    Seq::new(n, |i: int| (i + 1) as u8)
}

/// All teams of two among players `1..=n`.
pub open spec fn teams(n: nat) -> Seq<(u8, u8)> {
    pairs_of(numbers(n))
}

/// Two teams share no player.
pub open spec fn disjoint(t: (u8, u8), u: (u8, u8)) -> bool {
    u.0 != t.0 && u.0 != t.1 && u.1 != t.0 && u.1 != t.1
}

/// The matches of team `t` against each team of `ts` it shares no player with,
/// in the order of `ts`.
pub open spec fn opponents(t: (u8, u8), ts: Seq<(u8, u8)>) -> Seq<[u8; 4]>
    decreases ts.len(),
{
    if ts.len() == 0 {
        seq![]
    } else {
        let rest = opponents(t, ts.drop_last());
        let u = ts.last();
        if disjoint(t, u) {
            rest.push([t.0, t.1, u.0, u.1])
        } else {
            rest
        }
    }
}

/// For each team of `outer` in turn, its matches against the teams of `all`.
pub open spec fn team_matches(outer: Seq<(u8, u8)>, all: Seq<(u8, u8)>) -> Seq<[u8; 4]>
    decreases outer.len(),
{
    if outer.len() == 0 {
        seq![]
    } else {
        team_matches(outer.drop_last(), all) + opponents(outer.last(), all)
    }
}

/// The four colour orderings of one match.
pub open spec fn color_orders(x: [u8; 4]) -> Seq<Pairing> {
    seq![
        ((x[0], x[1]), (x[2], x[3])),
        ((x[0], x[1]), (x[3], x[2])),
        ((x[1], x[0]), (x[2], x[3])),
        ((x[1], x[0]), (x[3], x[2])),
    ]
}

/// Every match of `v` expanded to its four colour orderings, in order.
pub open spec fn expand(v: Seq<[u8; 4]>) -> Seq<Pairing>
    decreases v.len(),
{
    if v.len() == 0 {
        seq![]
    } else {
        expand(v.drop_last()) + color_orders(v.last())
    }
}

/// The pairing queue for players numbered `1..=n`.
pub open spec fn pairings(n: nat) -> Seq<Pairing> {
    expand(team_matches(teams(n), teams(n)))
}

/// A team of two distinct players numbered in `1..=n`.
pub open spec fn team_in_range(t: (u8, u8), n: nat) -> bool {
    1 <= t.0 <= n && 1 <= t.1 <= n && t.0 != t.1
}

/// A match of four distinct players numbered in `1..=n`.
pub open spec fn match_in_range(x: [u8; 4], n: nat) -> bool {
    &&& 1 <= x[0] <= n && 1 <= x[1] <= n && 1 <= x[2] <= n && 1 <= x[3] <= n
    &&& x[0] != x[1] && x[0] != x[2] && x[0] != x[3] && x[1] != x[2] && x[1] != x[3] && x[2] != x[3]
}

/// A pairing of four distinct players numbered in `1..=n`.
pub open spec fn pairing_in_range(p: Pairing, n: nat) -> bool {
    let ((a, b), (c, d)) = p;
    &&& 1 <= a <= n && 1 <= b <= n && 1 <= c <= n && 1 <= d <= n
    &&& a != b && a != c && a != d && b != c && b != d && c != d
}

proof fn lemma_pairs_of(l: Seq<u8>)
    ensures
        forall|k: int|
            0 <= k < pairs_of(l).len() ==> exists|a: int, b: int|
                0 <= a < b < l.len() && #[trigger] pairs_of(l)[k] == (l[a], l[b]),
    decreases l.len(),
{
    if l.len() > 0 {
        let prev = pairs_of(l.drop_last());
        let last = Seq::new((l.len() - 1) as nat, |a: int| (l[a], l.last()));
        lemma_pairs_of(l.drop_last());
        assert forall|k: int| 0 <= k < pairs_of(l).len() implies exists|a: int, b: int|
            0 <= a < b < l.len() && #[trigger] pairs_of(l)[k] == (l[a], l[b]) by {
            if k < prev.len() {
                assert(pairs_of(l)[k] == prev[k]);
                let (a, b) = choose|a: int, b: int|
                    0 <= a < b < l.drop_last().len() && prev[k] == (l.drop_last()[a], l.drop_last()[b]);
                assert(pairs_of(l)[k] == (l[a], l[b]));
            } else {
                let a = k - prev.len();
                assert(pairs_of(l)[k] == last[a]);
                assert(pairs_of(l)[k] == (l[a], l[l.len() - 1]));
            }
        }
    }
}

proof fn lemma_teams_in_range(n: nat)
    requires
        n <= 255,
    ensures
        forall|k: int| 0 <= k < teams(n).len() ==> team_in_range(#[trigger] teams(n)[k], n),
{
    lemma_pairs_of(numbers(n));
    assert forall|k: int| 0 <= k < teams(n).len() implies team_in_range(#[trigger] teams(n)[k], n) by {
        let (a, b) = choose|a: int, b: int|
            0 <= a < b < numbers(n).len() && teams(n)[k] == (numbers(n)[a], numbers(n)[b]);
        assert(numbers(n)[a] == (a + 1) as u8);
        assert(numbers(n)[b] == (b + 1) as u8);
    }
}

proof fn lemma_opponents_in_range(t: (u8, u8), ts: Seq<(u8, u8)>, n: nat)
    requires
        team_in_range(t, n),
        forall|k: int| 0 <= k < ts.len() ==> team_in_range(#[trigger] ts[k], n),
    ensures
        forall|k: int|
            0 <= k < opponents(t, ts).len() ==> match_in_range(#[trigger] opponents(t, ts)[k], n),
    decreases ts.len(),
{
    if ts.len() > 0 {
        assert forall|k: int| 0 <= k < ts.drop_last().len() implies team_in_range(
            #[trigger] ts.drop_last()[k],
            n,
        ) by {
            assert(ts.drop_last()[k] == ts[k]);
        }
        lemma_opponents_in_range(t, ts.drop_last(), n);
        assert(team_in_range(ts[ts.len() - 1], n));
        let rest = opponents(t, ts.drop_last());
        let u = ts.last();
        if disjoint(t, u) {
            let x: [u8; 4] = [t.0, t.1, u.0, u.1];
            assert(x[0] == t.0 && x[1] == t.1 && x[2] == u.0 && x[3] == u.1);
            assert(match_in_range(x, n));
            assert forall|k: int| 0 <= k < opponents(t, ts).len() implies match_in_range(
                #[trigger] opponents(t, ts)[k],
                n,
            ) by {
                if k < rest.len() {
                    assert(opponents(t, ts)[k] == rest[k]);
                } else {
                    assert(opponents(t, ts)[k] == x);
                }
            }
        }
    }
}

proof fn lemma_team_matches_in_range(outer: Seq<(u8, u8)>, all: Seq<(u8, u8)>, n: nat)
    requires
        forall|k: int| 0 <= k < outer.len() ==> team_in_range(#[trigger] outer[k], n),
        forall|k: int| 0 <= k < all.len() ==> team_in_range(#[trigger] all[k], n),
    ensures
        forall|k: int|
            0 <= k < team_matches(outer, all).len() ==> match_in_range(
                #[trigger] team_matches(outer, all)[k],
                n,
            ),
    decreases outer.len(),
{
    if outer.len() > 0 {
        assert forall|k: int| 0 <= k < outer.drop_last().len() implies team_in_range(
            #[trigger] outer.drop_last()[k],
            n,
        ) by {
            assert(outer.drop_last()[k] == outer[k]);
        }
        lemma_team_matches_in_range(outer.drop_last(), all, n);
        assert(team_in_range(outer[outer.len() - 1], n));
        lemma_opponents_in_range(outer.last(), all, n);
        let a = team_matches(outer.drop_last(), all);
        let b = opponents(outer.last(), all);
        assert forall|k: int| 0 <= k < team_matches(outer, all).len() implies match_in_range(
            #[trigger] team_matches(outer, all)[k],
            n,
        ) by {
            if k < a.len() {
                assert(team_matches(outer, all)[k] == a[k]);
            } else {
                assert(team_matches(outer, all)[k] == b[k - a.len()]);
            }
        }
    }
}

proof fn lemma_expand_in_range(v: Seq<[u8; 4]>, n: nat)
    requires
        forall|k: int| 0 <= k < v.len() ==> match_in_range(#[trigger] v[k], n),
    ensures
        forall|k: int| 0 <= k < expand(v).len() ==> pairing_in_range(#[trigger] expand(v)[k], n),
        expand(v).len() == 4 * v.len(),
    decreases v.len(),
{
    if v.len() > 0 {
        assert forall|k: int| 0 <= k < v.drop_last().len() implies match_in_range(
            #[trigger] v.drop_last()[k],
            n,
        ) by {
            assert(v.drop_last()[k] == v[k]);
        }
        lemma_expand_in_range(v.drop_last(), n);
        let a = expand(v.drop_last());
        let x = v.last();
        assert(match_in_range(v[v.len() - 1], n));
        assert forall|k: int| 0 <= k < expand(v).len() implies pairing_in_range(
            #[trigger] expand(v)[k],
            n,
        ) by {
            if k < a.len() {
                assert(expand(v)[k] == a[k]);
            } else {
                assert(expand(v)[k] == color_orders(x)[k - a.len()]);
            }
        }
    }
}

/// Every pairing for `n` players names four distinct players of `1..=n`.
pub proof fn lemma_pairings_in_range(n: nat)
    requires
        n <= 255,
    ensures
        forall|k: int| 0 <= k < pairings(n).len() ==> pairing_in_range(#[trigger] pairings(n)[k], n),
{
    lemma_teams_in_range(n);
    lemma_team_matches_in_range(teams(n), teams(n), n);
    lemma_expand_in_range(team_matches(teams(n), teams(n)), n);
}

/// Every team of two drawn from `l`: the pairs `(l[a], l[b])` with `a < b`,
/// ordered by `b`, then `a`.
pub fn teams_of(l: &Vec<u8>) -> (r: Vec<(u8, u8)>)
    ensures
        r@ == pairs_of(l@),
{
    let mut v: Vec<(u8, u8)> = Vec::new();
    let mut b: usize = 0;
    while b < l.len()
        invariant
            b <= l@.len(),
            v@ == pairs_of(l@.take(b as int)),
        decreases l@.len() - b,
    {
        let ghost start = v@;
        let mut a: usize = 0;
        while a < b
            invariant
                a <= b < l@.len(),
                v@ == start + Seq::new(a as nat, |x: int| (l@[x], l@[b as int])),
            decreases b - a,
        {
            v.push((l[a], l[b]));
            assert(v@ =~= start + Seq::new(a as nat + 1, |x: int| (l@[x], l@[b as int])));
            a += 1;
        }
        let ghost t = l@.take(b as int + 1);
        assert(t.drop_last() =~= l@.take(b as int));
        assert(Seq::new((t.len() - 1) as nat, |x: int| (t[x], t.last())) =~= Seq::new(
            b as nat,
            |x: int| (l@[x], l@[b as int]),
        ));
        b += 1;
    }
    assert(l@.take(b as int) =~= l@);
    v
}

/// The player numbers `1..=n`.
fn player_numbers(n: usize) -> (r: Vec<u8>)
    requires
        n <= 255,
    ensures
        r@ == numbers(n as nat),
{
    let mut arr: Vec<u8> = Vec::new();
    let mut i: usize = 0;
    while i < n
        invariant
            i <= n <= 255,
            arr@ == numbers(i as nat),
        decreases n - i,
    {
        arr.push((i + 1) as u8);
        assert(arr@ =~= numbers(i as nat + 1));
        i += 1;
    }
    arr
}

/// All matches `[a, b, c, d]` between two disjoint teams of `v`, for each team
/// of `v` in turn.
pub fn create_team_pairings(v: &Vec<(u8, u8)>) -> (r: VecDeque<[u8; 4]>)
    ensures
        r@ == team_matches(v@, v@),
{
    let mut tmp: VecDeque<[u8; 4]> = VecDeque::new();
    let mut i: usize = 0;
    while i < v.len()
        invariant
            i <= v@.len(),
            tmp@ == team_matches(v@.take(i as int), v@),
        decreases v@.len() - i,
    {
        let t = v[i];
        let ghost start = tmp@;
        let mut j: usize = 0;
        while j < v.len()
            invariant
                i < v@.len(),
                j <= v@.len(),
                t == v@[i as int],
                tmp@ == start + opponents(t, v@.take(j as int)),
            decreases v@.len() - j,
        {
            let u = v[j];
            assert(v@.take(j as int + 1).drop_last() =~= v@.take(j as int));
            if u.0 != t.0 && u.0 != t.1 && u.1 != t.1 && u.1 != t.0 {
                tmp.push_back([t.0, t.1, u.0, u.1]);
            }
            assert(tmp@ =~= start + opponents(t, v@.take(j as int + 1)));
            j += 1;
        }
        assert(v@.take(j as int) =~= v@);
        assert(v@.take(i as int + 1).drop_last() =~= v@.take(i as int));
        i += 1;
    }
    assert(v@.take(i as int) =~= v@);
    tmp
}

/// Expands every match `[a, b, c, d]` into its four colour orderings
/// `((a,b),(c,d))`, `((a,b),(d,c))`, `((b,a),(c,d))`, `((b,a),(d,c))`.
pub fn team_comb(vec: &VecDeque<[u8; 4]>) -> (r: VecDeque<Pairing>)
    ensures
        r@ == expand(vec@),
{
    let mut l: VecDeque<Pairing> = VecDeque::new();
    let mut i: usize = 0;
    while i < vec.len()
        invariant
            i <= vec@.len(),
            l@ == expand(vec@.take(i as int)),
        decreases vec@.len() - i,
    {
        let x = vec[i];
        let (a, b, c, d) = (x[0], x[1], x[2], x[3]);
        l.push_back(((a, b), (c, d)));
        l.push_back(((a, b), (d, c)));
        l.push_back(((b, a), (c, d)));
        l.push_back(((b, a), (d, c)));
        assert(vec@.take(i as int + 1).drop_last() =~= vec@.take(i as int));
        assert(l@ =~= expand(vec@.take(i as int + 1)));
        i += 1;
    }
    assert(vec@.take(i as int) =~= vec@);
    l
}

/// The deterministic pairing queue for players numbered `1..=n`: every team
/// split into two disjoint pairs, with every colour ordering in each team.
pub fn create_pairings(n: usize) -> (r: VecDeque<Pairing>)
    requires
        n <= 255,
    ensures
        r@ == pairings(n as nat),
{
    let teams = teams_of(&player_numbers(n));
    let matches = create_team_pairings(&teams);
    team_comb(&matches)
}

/// The pairing queue for `n` players; see `create_pairings`.
pub fn create_pairings_wr(n: u8) -> (r: VecDeque<Pairing>)
    ensures
        r@ == pairings(n as nat),
{
    create_pairings(n as usize)
}

/// The vectors of `v`, as sequences.
pub open spec fn deep(v: Seq<Vec<u8>>) -> Seq<Seq<u8>> {
    v.map_values(|x: Vec<u8>| x@)
}

/// The ordered `n`-tuples of distinct positions of `l`, as values, in
/// lexicographic order of positions, restricted to the first `k` choices of
/// the first position.
pub open spec fn arrangements(l: Seq<u8>, n: nat, k: nat) -> Seq<Seq<u8>>
    decreases n, k,
{
    if n == 0 {
        seq![seq![]]
    } else if k == 0 || k > l.len() {
        seq![]
    } else {
        let i = k - 1;
        arrangements(l, n, (k - 1) as nat) + arrangements(l.remove(i), (n - 1) as nat, (l.len() - 1) as nat).map_values(
            |p: Seq<u8>| seq![l[i]] + p,
        )
    }
}

/// Every ordered `n`-tuple of elements of `l` at distinct positions.
pub open spec fn permutations(l: Seq<u8>, n: nat) -> Seq<Seq<u8>> {
    arrangements(l, n, l.len())
}

fn without_index(l: &Vec<u8>, i: usize) -> (r: Vec<u8>)
    requires
        i < l@.len(),
    ensures
        r@ == l@.remove(i as int),
{
    let mut v = copy(l);
    v.remove(i);
    v
}

fn arrange(l: &Vec<u8>, n: usize) -> (r: Vec<Vec<u8>>)
    ensures
        deep(r@) == permutations(l@, n as nat),
    decreases n,
{
    let mut out: Vec<Vec<u8>> = Vec::new();
    if n == 0 {
        out.push(Vec::new());
        assert(deep(out@) =~= seq![seq![]]);
        return out;
    }
    let mut i: usize = 0;
    assert(deep(out@) =~= arrangements(l@, n as nat, 0));
    while i < l.len()
        invariant
            n > 0,
            i <= l@.len(),
            deep(out@) == arrangements(l@, n as nat, i as nat),
        decreases l@.len() - i,
    {
        let rest = without_index(l, i);
        let sub = arrange(&rest, n - 1);
        let ghost start = deep(out@);
        let ghost tail = deep(sub@).map_values(|p: Seq<u8>| seq![l@[i as int]] + p);
        let mut j: usize = 0;
        while j < sub.len()
            invariant
                i < l@.len(),
                j <= sub@.len(),
                tail == deep(sub@).map_values(|p: Seq<u8>| seq![l@[i as int]] + p),
                deep(out@) == start + tail.take(j as int),
            decreases sub@.len() - j,
        {
            let mut v = copy(&sub[j]);
            v.insert(0, l[i]);
            let ghost before = out@;
            out.push(v);
            assert(v@ =~= seq![l@[i as int]] + sub@[j as int]@);
            assert(deep(out@) =~= deep(before).push(v@));
            assert(tail.take(j as int + 1) =~= tail.take(j as int).push(tail[j as int]));
            j += 1;
        }
        assert(tail.take(j as int) =~= tail);
        assert(deep(out@) == arrangements(l@, n as nat, i as nat + 1));
        i += 1;
    }
    out
}

/// Every ordered `n`-tuple of elements of `l` at distinct positions, in
/// lexicographic order of positions; `l` is left as it was.
pub fn combinations(l: &mut Vec<u8>, n: usize) -> (r: Vec<Vec<u8>>)
    ensures
        final(l)@ == old(l)@,
        deep(r@) == permutations(old(l)@, n as nat),
{
    arrange(l, n)
}

/// The first index of a sequence of `v` that starts with `a`, `b`.
pub open spec fn pair_index(v: Seq<Seq<u8>>, a: u8, b: u8) -> Option<nat>
    decreases v.len(),
{
    if v.len() == 0 {
        None
    } else {
        match pair_index(v.drop_last(), a, b) {
            Some(i) => Some(i),
            None => if v.last()[0] == a && v.last()[1] == b {
                Some((v.len() - 1) as nat)
            } else {
                None
            },
        }
    }
}

proof fn lemma_pair_index(v: Seq<Seq<u8>>, a: u8, b: u8)
    ensures
        pair_index(v, a, b) matches Some(i) ==> i < v.len() && v[i as int][0] == a && v[i as int][1] == b
            && forall|j: int| 0 <= j < i ==> !(v[j][0] == a && v[j][1] == b),
        pair_index(v, a, b) is None <==> forall|j: int| 0 <= j < v.len() ==> !(v[j][0] == a && v[j][1] == b),
    decreases v.len(),
{
    if v.len() > 0 {
        lemma_pair_index(v.drop_last(), a, b);
        assert(forall|j: int| 0 <= j < v.len() - 1 ==> v.drop_last()[j] == v[j]);
    }
}

/// Where the reverse of the pair at `i` first occurs.
pub open spec fn reverse_index(v: Seq<Seq<u8>>, i: int) -> Option<nat> {
    pair_index(v, v[i][1], v[i][0])
}

/// For each of the first `k` pairs of `v` in turn, where its reverse first
/// occurs, when it does.
pub open spec fn reverse_indices(v: Seq<Seq<u8>>, k: nat) -> Seq<nat>
    decreases k,
{
    if k == 0 {
        seq![]
    } else {
        let rest = reverse_indices(v, (k - 1) as nat);
        match reverse_index(v, k - 1) {
            Some(j) => rest.push(j),
            None => rest,
        }
    }
}

/// For each of the first `k` pairs of `v` whose reverse occurs earlier, that
/// earlier pair: the first of each pair and its reverse, listed in the
/// order of the second.
pub open spec fn unordered(v: Seq<Seq<u8>>, k: nat) -> Seq<Seq<u8>>
    decreases k,
{
    if k == 0 {
        seq![]
    } else {
        let rest = unordered(v, (k - 1) as nat);
        match reverse_index(v, k - 1) {
            Some(j) => if j < k - 1 {
                rest.push(v[j as int])
            } else {
                rest
            },
            None => rest,
        }
    }
}

fn find_reverse(v: &Vec<Vec<u8>>, i: usize) -> (r: Option<usize>)
    requires
        i < v@.len(),
        forall|k: int| 0 <= k < v@.len() ==> (#[trigger] v@[k])@.len() >= 2,
    ensures
        r matches Some(j) ==> j < v@.len() && reverse_index(deep(v@), i as int) == Some(j as nat),
        r is None ==> reverse_index(deep(v@), i as int) is None,
{
    let a = v[i][1];
    let b = v[i][0];
    let ghost d = deep(v@);
    assert(d[i as int] == v@[i as int]@);
    assert(d[i as int][1] == a && d[i as int][0] == b);
    let mut j: usize = 0;
    while j < v.len()
        invariant
            j <= v@.len(),
            i < v@.len(),
            d == deep(v@),
            d[i as int][1] == a && d[i as int][0] == b,
            forall|k: int| 0 <= k < v@.len() ==> (#[trigger] v@[k])@.len() >= 2,
            forall|k: int| 0 <= k < j ==> !(d[k][0] == a && d[k][1] == b),
        decreases v@.len() - j,
    {
        if v[j][0] == a && v[j][1] == b {
            proof {
                lemma_pair_index(d, a, b);
                assert(d[j as int] == v@[j as int]@);
                assert(d[j as int][0] == a && d[j as int][1] == b);
                assert(pair_index(d, a, b) is Some);
                if let Some(k) = pair_index(d, a, b) {
                    if k < j {
                        assert(!(d[k as int][0] == a && d[k as int][1] == b));
                    }
                    if k > j {
                        assert(!(d[j as int][0] == a && d[j as int][1] == b));
                    }
                }
                assert(reverse_index(d, i as int) == pair_index(d, a, b));
            }
            return Some(j);
        }
        assert(d[j as int] == v@[j as int]@);
        j += 1;
    }
    proof {
        lemma_pair_index(d, a, b);
    }
    None
}

/// For each pair of `v` in turn, the index of the first occurrence of its
/// reverse, when there is one.
pub fn map_indices(v: &Vec<Vec<u8>>) -> (r: Vec<usize>)
    requires
        forall|k: int| 0 <= k < v@.len() ==> (#[trigger] v@[k])@.len() >= 2,
    ensures
        r@.map_values(|x: usize| x as nat) == reverse_indices(deep(v@), v@.len()),
{
    let mut indices: Vec<usize> = Vec::new();
    let mut i: usize = 0;
    while i < v.len()
        invariant
            i <= v@.len(),
            forall|k: int| 0 <= k < v@.len() ==> (#[trigger] v@[k])@.len() >= 2,
            indices@.map_values(|x: usize| x as nat) == reverse_indices(deep(v@), i as nat),
        decreases v@.len() - i,
    {
        let ghost before = indices@;
        match find_reverse(v, i) {
            Some(j) => {
                indices.push(j);
                assert(indices@.map_values(|x: usize| x as nat) =~= before.map_values(|x: usize| x as nat).push(
                    j as nat,
                ));
            },
            None => {},
        }
        i += 1;
    }
    indices
}

/// Drops the reversed copy of each pair: for every pair whose reverse came
/// earlier, that earlier pair, in the order of the later copies. `v` is
/// left as it was.
pub fn rm_ordering(v: &mut Vec<Vec<u8>>) -> (r: Vec<Vec<u8>>)
    requires
        forall|k: int| 0 <= k < old(v)@.len() ==> (#[trigger] old(v)@[k])@.len() >= 2,
    ensures
        final(v)@ == old(v)@,
        deep(r@) == unordered(deep(old(v)@), old(v)@.len() as nat),
{
    let mut only_needed: Vec<Vec<u8>> = Vec::new();
    let mut i: usize = 0;
    while i < v.len()
        invariant
            i <= v@.len(),
            v@ == old(v)@,
            forall|k: int| 0 <= k < v@.len() ==> (#[trigger] v@[k])@.len() >= 2,
            deep(only_needed@) == unordered(deep(v@), i as nat),
        decreases v@.len() - i,
    {
        let ghost before = only_needed@;
        match find_reverse(v, i) {
            Some(j) => {
                if j < i {
                    let c = copy(&v[j]);
                    only_needed.push(c);
                    assert(deep(only_needed@) =~= deep(before).push(deep(v@)[j as int]));
                }
            },
            None => {},
        }
        i += 1;
    }
    only_needed
}

/// The first index of `x` in `s`.
pub open spec fn first_index(s: Seq<u8>, x: u8) -> Option<nat>
    decreases s.len(),
{
    if s.len() == 0 {
        None
    } else {
        match first_index(s.drop_last(), x) {
            Some(i) => Some(i),
            None => if s.last() == x {
                Some((s.len() - 1) as nat)
            } else {
                None
            },
        }
    }
}

proof fn lemma_first_index(s: Seq<u8>, x: u8)
    ensures
        first_index(s, x) matches Some(i) ==> i < s.len() && s[i as int] == x && forall|j: int|
            0 <= j < i ==> s[j] != x,
        first_index(s, x) is None <==> forall|j: int| 0 <= j < s.len() ==> s[j] != x,
    decreases s.len(),
{
    if s.len() > 0 {
        lemma_first_index(s.drop_last(), x);
        assert(forall|j: int| 0 <= j < s.len() - 1 ==> s.drop_last()[j] == s[j]);
    }
}

/// `s` without the first occurrence of `x`, if any.
pub open spec fn remove_first(s: Seq<u8>, x: u8) -> Seq<u8> {
    match first_index(s, x) {
        Some(i) => s.remove(i as int),
        None => s,
    }
}

/// `s` with the first occurrence of each element of `d` removed in turn.
pub open spec fn without_each(s: Seq<u8>, d: Seq<u8>) -> Seq<u8>
    decreases d.len(),
{
    if d.len() == 0 {
        s
    } else {
        remove_first(without_each(s, d.drop_last()), d.last())
    }
}

/// The first index of `el` in `v1`.
pub fn contains(v1: &Vec<u8>, el: u8) -> (r: Option<usize>)
    ensures
        r matches Some(i) ==> i < v1@.len() && first_index(v1@, el) == Some(i as nat),
        r is None ==> first_index(v1@, el) is None,
{
    proof {
        lemma_first_index(v1@, el);
    }
    let mut i: usize = 0;
    while i < v1.len()
        invariant
            i <= v1@.len(),
            forall|j: int| 0 <= j < i ==> v1@[j] != el,
        decreases v1@.len() - i,
    {
        if v1[i] == el {
            proof {
                lemma_first_index(v1@, el);
                if let Some(k) = first_index(v1@, el) {
                    assert(v1@[k as int] == el);
                    if k < i {
                        assert(v1@[k as int] != el);
                    }
                    if k > i {
                        assert(v1@[i as int] != el);
                    }
                }
            }
            return Some(i);
        }
        i += 1;
    }
    None
}

pub fn contains_usize(v1: &Vec<usize>, el: usize) -> (r: bool)
    ensures
        r == v1@.contains(el),
{
    let mut i: usize = 0;
    while i < v1.len()
        invariant
            i <= v1@.len(),
            forall|j: int| 0 <= j < i ==> v1@[j] != el,
        decreases v1@.len() - i,
    {
        if v1[i] == el {
            return true;
        }
        i += 1;
    }
    false
}

pub fn copy(v1: &Vec<u8>) -> (r: Vec<u8>)
    ensures
        r@ == v1@,
{
    let mut v2: Vec<u8> = Vec::new();
    let mut i: usize = 0;
    while i < v1.len()
        invariant
            i <= v1@.len(),
            v2@ == v1@.take(i as int),
        decreases v1@.len() - i,
    {
        v2.push(v1[i]);
        assert(v2@ =~= v1@.take(i as int + 1));
        i += 1;
    }
    assert(v1@.take(i as int) =~= v1@);
    v2
}

/// Removes from `v1` the first occurrence of each element of `v2`, in order.
pub fn diff_values(v1: &mut Vec<u8>, v2: &Vec<u8>)
    ensures
        final(v1)@ == without_each(old(v1)@, v2@),
{
    let ghost start = v1@;
    let mut i: usize = 0;
    while i < v2.len()
        invariant
            i <= v2@.len(),
            v1@ == without_each(start, v2@.take(i as int)),
        decreases v2@.len() - i,
    {
        let ghost before = v1@;
        match contains(v1, v2[i]) {
            Some(e) => {
                v1.remove(e);
            },
            None => {},
        }
        assert(v2@.take(i as int + 1).drop_last() =~= v2@.take(i as int));
        assert(v1@ == remove_first(before, v2@[i as int]));
        i += 1;
    }
    assert(v2@.take(i as int) =~= v2@);
}

/// The first index of a vector of `v1` that starts with the same two values
/// as `el`.
pub fn contains_vec(v1: &Vec<Vec<u8>>, el: Vec<u8>) -> (r: Option<usize>)
    requires
        el@.len() >= 2,
        forall|k: int| 0 <= k < v1@.len() ==> (#[trigger] v1@[k])@.len() >= 2,
    ensures
        r matches Some(i) ==> i < v1@.len() && v1@[i as int]@[0] == el@[0] && v1@[i as int]@[1]
            == el@[1] && forall|j: int|
            0 <= j < i ==> !(v1@[j]@[0] == el@[0] && v1@[j]@[1] == el@[1]),
        r is None ==> forall|j: int|
            0 <= j < v1@.len() ==> !(v1@[j]@[0] == el@[0] && v1@[j]@[1] == el@[1]),
{
    let mut i: usize = 0;
    while i < v1.len()
        invariant
            i <= v1@.len(),
            el@.len() >= 2,
            forall|k: int| 0 <= k < v1@.len() ==> (#[trigger] v1@[k])@.len() >= 2,
            forall|j: int| 0 <= j < i ==> !(v1@[j]@[0] == el@[0] && v1@[j]@[1] == el@[1]),
        decreases v1@.len() - i,
    {
        if v1[i][0] == el[0] && v1[i][1] == el[1] {
            return Some(i);
        }
        i += 1;
    }
    None
}

} // verus!
