//! The stacking order of layer surfaces. Drawing, hit-testing and focus all take
//! it from here, so they agree.

use crate::text::same_text;
use vstd::prelude::*;

verus! {

/// A layer's rank: what a rule gives it, 0 without one.
pub open spec fn rank(orders: Seq<Option<i32>>, has_orders: bool, i: int) -> int {
    match orders[i] {
        Some(o) if has_orders => o as int,
        _ => 0,
    }
}

fn rank_of(orders: &[Option<i32>], has_orders: bool, i: usize) -> (r: i32)
    requires
        i < orders@.len(),
    ensures
        r == rank(orders@, has_orders, i as int),
{
    if !has_orders {
        return 0;
    }
    match orders[i] {
        Some(o) => o,
        None => 0,
    }
}

/// Whether layer `a` is above layer `b`: it ranks higher, or as high and was
/// mapped later (`newest_first`) or earlier.
pub open spec fn above(
    orders: Seq<Option<i32>>,
    has_orders: bool,
    newest_first: bool,
    a: int,
    b: int,
) -> bool {
    let ra = rank(orders, has_orders, a);
    let rb = rank(orders, has_orders, b);
    ra > rb || (ra == rb && if newest_first {
        a > b
    } else {
        a < b
    })
}

/// `list` holds each of the layers `0..n` once, topmost first.
pub open spec fn stacked(
    list: Seq<usize>,
    orders: Seq<Option<i32>>,
    has_orders: bool,
    newest_first: bool,
    n: int,
) -> bool {
    &&& list.len() == n
    &&& forall|i: int| 0 <= i < n ==> (#[trigger] list[i]) < n
    &&& forall|i: int, j: int|
        0 <= i < j < n ==> above(
            orders,
            has_orders,
            newest_first,
            #[trigger] list[i] as int,
            #[trigger] list[j] as int,
        )
}

fn is_above(
    orders: &[Option<i32>],
    has_orders: bool,
    newest_first: bool,
    a: usize,
    b: usize,
) -> (r: bool)
    requires
        a < orders@.len(),
        b < orders@.len(),
    ensures
        r == above(orders@, has_orders, newest_first, a as int, b as int),
{
    let ra: i32 = rank_of(orders, has_orders, a);
    let rb: i32 = rank_of(orders, has_orders, b);
    ra > rb || (ra == rb && if newest_first {
        a > b
    } else {
        a < b
    })
}

fn stack_layers(orders: &[Option<i32>], has_orders: bool, newest_first: bool) -> (list: Vec<usize>)
    ensures
        stacked(list@, orders@, has_orders, newest_first, orders@.len() as int),
{
    let mut list: Vec<usize> = Vec::new();
    let mut n: usize = 0;
    while n < orders.len()
        invariant
            n <= orders@.len(),
            stacked(list@, orders@, has_orders, newest_first, n as int),
        decreases orders.len() - n,
    {
        let mut p: usize = 0;
        while p < list.len() && is_above(orders, has_orders, newest_first, list[p], n)
            invariant
                p <= list@.len(),
                n < orders@.len(),
                stacked(list@, orders@, has_orders, newest_first, n as int),
                forall|i: int|
                    0 <= i < p ==> above(
                        orders@,
                        has_orders,
                        newest_first,
                        #[trigger] list@[i] as int,
                        n as int,
                    ),
            decreases list.len() - p,
        {
            p = p + 1;
        }
        let ghost before = list@;
        list.insert(p, n);
        assert forall|i: int, j: int| 0 <= i < j < n + 1 implies above(
            orders@,
            has_orders,
            newest_first,
            #[trigger] list@[i] as int,
            #[trigger] list@[j] as int,
        ) by {
            let a = if i < p {
                i
            } else {
                i - 1
            };
            let b = if j < p {
                j
            } else {
                j - 1
            };
            if i == p {
                assert(!above(orders@, has_orders, newest_first, before[p as int] as int, n as int));
                assert(list@[j] == before[b]);
                if b > p {
                    assert(above(
                        orders@,
                        has_orders,
                        newest_first,
                        before[p as int] as int,
                        before[b] as int,
                    ));
                }
            } else if j == p {
                assert(list@[i] == before[i]);
            } else {
                assert(list@[i] == before[a]);
                assert(list@[j] == before[b]);
            }
        }
        assert forall|i: int| 0 <= i < n + 1 implies (#[trigger] list@[i]) < n + 1 by {
            if i < p {
                assert(list@[i] == before[i]);
            } else if i > p {
                assert(list@[i] == before[i - 1]);
            }
        }
        n = n + 1;
    }
    list
}

/// The layers of an output, topmost first: by rank, the newest on top of those
/// that rank the same.
pub fn layers_on_sorted(orders: &[Option<i32>], has_orders: bool) -> (list: Vec<usize>)
    ensures
        stacked(list@, orders@, has_orders, true, orders@.len() as int),
{
    stack_layers(orders, has_orders, true)
}

/// The layers on the canvas, topmost first: by rank, the oldest on top of those
/// that rank the same.
pub fn canvas_layer_indices_sorted(orders: &[Option<i32>], has_orders: bool) -> (list: Vec<usize>)
    ensures
        stacked(list@, orders@, has_orders, false, orders@.len() as int),
{
    stack_layers(orders, has_orders, false)
}

/// How many of the first `n` layers have a namespace.
pub open spec fn instances(namespaces: Seq<String>, namespace: Seq<char>, n: int) -> int
    decreases n,
{
    if n <= 0 {
        0
    } else {
        instances(namespaces, namespace, n - 1) + if namespaces[n - 1]@ == namespace {
            1int
        } else {
            0int
        }
    }
}

/// Which instance of its namespace a canvas layer is: how many of the layers
/// before it have the same. Rules apply by instance.
pub fn canvas_layer_applied_rule(namespaces: &[String], idx: usize) -> (instance: Option<usize>)
    ensures
        match instance {
            Some(k) => idx < namespaces@.len() && k == instances(
                namespaces@,
                namespaces@[idx as int]@,
                idx as int,
            ),
            None => idx >= namespaces@.len(),
        },
{
    if idx >= namespaces.len() {
        return None;
    }
    let mut count: usize = 0;
    let mut i: usize = 0;
    while i < idx
        invariant
            i <= idx < namespaces@.len(),
            count <= i,
            count == instances(namespaces@, namespaces@[idx as int]@, i as int),
        decreases idx - i,
    {
        if same_text(namespaces[i].as_str(), namespaces[idx].as_str()) {
            count = count + 1;
        }
        i = i + 1;
    }
    Some(count)
}

/// Of two layers on an output the one that ranks higher is drawn above, whatever
/// the order they came in.
pub proof fn law_rank_decides(
    orders: Seq<Option<i32>>,
    newest_first: bool,
    list: Seq<usize>,
    i: int,
    j: int,
)
    requires
        stacked(list, orders, true, newest_first, orders.len() as int),
        0 <= i < list.len(),
        0 <= j < list.len(),
        rank(orders, true, list[i] as int) > rank(orders, true, list[j] as int),
    ensures
        i < j,
{
    if j < i {
        assert(above(orders, true, newest_first, list[j] as int, list[i] as int));
    }
}

/// The stacking order is unique: two lists that satisfy it are the same.
pub proof fn law_stacking_is_unique(
    orders: Seq<Option<i32>>,
    has_orders: bool,
    newest_first: bool,
    a: Seq<usize>,
    b: Seq<usize>,
)
    requires
        stacked(a, orders, has_orders, newest_first, orders.len() as int),
        stacked(b, orders, has_orders, newest_first, orders.len() as int),
    ensures
        a == b,
{
    let n = orders.len() as int;
    assert forall|k: int| 0 <= k < n implies a[k] == b[k] by {
        lemma_same_at(orders, has_orders, newest_first, a, b, k);
    }
    assert(a =~= b);
}

proof fn lemma_same_at(
    orders: Seq<Option<i32>>,
    has_orders: bool,
    newest_first: bool,
    a: Seq<usize>,
    b: Seq<usize>,
    k: int,
)
    requires
        stacked(a, orders, has_orders, newest_first, orders.len() as int),
        stacked(b, orders, has_orders, newest_first, orders.len() as int),
        0 <= k < orders.len(),
    ensures
        a[k] == b[k],
    decreases k,
{
    let n = orders.len() as int;
    assert forall|j: int| 0 <= j < k implies a[j] == b[j] by {
        lemma_same_at(orders, has_orders, newest_first, a, b, j);
    }
    lemma_distinct(orders, has_orders, newest_first, a);
    lemma_distinct(orders, has_orders, newest_first, b);
    lemma_all_held(a, n as nat);
    lemma_all_held(b, n as nat);
    if a[k] != b[k] {
        let i = choose|i: int| 0 <= i < n && b[i] == a[k];
        let j = choose|j: int| 0 <= j < n && a[j] == b[k];
        assert(0 <= i < n && b[i] == a[k]) by {
            assert(b.contains(a[k]));
        }
        assert(0 <= j < n && a[j] == b[k]) by {
            assert(a.contains(b[k]));
        }
        if i < k {
            assert(a[i] == b[i]);
        }
        if j < k {
            assert(a[j] == b[j]);
        }
        assert(i > k && j > k);
        assert(above(orders, has_orders, newest_first, a[k] as int, a[j] as int));
        assert(above(orders, has_orders, newest_first, b[k] as int, b[i] as int));
    }
}

proof fn lemma_distinct(
    orders: Seq<Option<i32>>,
    has_orders: bool,
    newest_first: bool,
    a: Seq<usize>,
)
    requires
        stacked(a, orders, has_orders, newest_first, orders.len() as int),
    ensures
        a.no_duplicates(),
{
    assert forall|i: int, j: int| 0 <= i < a.len() && 0 <= j < a.len() && i != j implies a[i]
        != a[j] by {
        if i < j {
            assert(above(orders, has_orders, newest_first, a[i] as int, a[j] as int));
        } else {
            assert(above(orders, has_orders, newest_first, a[j] as int, a[i] as int));
        }
    }
}

/// `n` distinct numbers below `n` are all of them.
proof fn lemma_all_held(a: Seq<usize>, n: nat)
    requires
        a.len() == n,
        a.no_duplicates(),
        forall|i: int| 0 <= i < n ==> (#[trigger] a[i]) < n,
    ensures
        forall|x: usize| x < n ==> #[trigger] a.contains(x),
{
    let s = a.map_values(|x: usize| x as int).to_set();
    let full = vstd::set_lib::set_int_range(0, n as int);
    vstd::set_lib::lemma_int_range(0, n as int);
    let ints = a.map_values(|x: usize| x as int);
    assert(ints.no_duplicates()) by {
        assert forall|i: int, j: int|
            0 <= i < ints.len() && 0 <= j < ints.len() && i != j implies ints[i] != ints[j] by {
            assert(a[i] != a[j]);
        }
    }
    ints.unique_seq_to_set();
    assert(s.subset_of(full)) by {
        assert forall|x: int| s.contains(x) implies full.contains(x) by {
            let k = choose|k: int| 0 <= k < ints.len() && ints[k] == x;
            assert(a[k] < n);
        }
    }
    vstd::set_lib::lemma_subset_equality(s, full);
    assert forall|x: usize| x < n implies #[trigger] a.contains(x) by {
        assert(full.contains(x as int));
        assert(s.contains(x as int));
        let k = choose|k: int| 0 <= k < ints.len() && ints[k] == x;
        assert(a[k] == x);
    }
}

/// A rule's rank counts where rules give ranks; a layer without one ranks as if it
/// had 0. Among layers of the same rank the newest is on top on an output, the
/// oldest on the canvas.
pub proof fn law_stacked_by_rank_then_age(
    orders: Seq<Option<i32>>,
    has_orders: bool,
    newest_first: bool,
    list: Seq<usize>,
    i: int,
    j: int,
)
    requires
        stacked(list, orders, has_orders, newest_first, orders.len() as int),
        0 <= i < j < list.len(),
    ensures
        ({
            let a = list[i] as int;
            let b = list[j] as int;
            let ra: int = if has_orders && orders[a] is Some {
                orders[a]->0 as int
            } else {
                0
            };
            let rb: int = if has_orders && orders[b] is Some {
                orders[b]->0 as int
            } else {
                0
            };
            &&& ra >= rb
            &&& ra == rb && newest_first ==> a > b
            &&& ra == rb && !newest_first ==> a < b
        }),
{
}

/// Every layer is stacked.
pub proof fn law_every_layer_is_stacked(
    orders: Seq<Option<i32>>,
    has_orders: bool,
    newest_first: bool,
    list: Seq<usize>,
    x: usize,
)
    requires
        stacked(list, orders, has_orders, newest_first, orders.len() as int),
        x < orders.len(),
    ensures
        list.contains(x),
        list.no_duplicates(),
{
    lemma_distinct(orders, has_orders, newest_first, list);
    lemma_all_held(list, orders.len());
}

/// The instances of a namespace are numbered from 0 on, without a gap, in the
/// order of the layers.
pub proof fn law_instances_are_numbered(namespaces: Seq<String>, i: int, j: int)
    requires
        0 <= i < j < namespaces.len(),
        namespaces[i]@ == namespaces[j]@,
        forall|k: int| i < k < j ==> (#[trigger] namespaces[k])@ != namespaces[i]@,
    ensures
        instances(namespaces, namespaces[j]@, j) == instances(namespaces, namespaces[i]@, i) + 1,
        (forall|k: int| 0 <= k < i ==> (#[trigger] namespaces[k])@ != namespaces[i]@) ==> instances(
            namespaces,
            namespaces[i]@,
            i,
        ) == 0,
{
    lemma_no_instance(namespaces, namespaces[i]@, i + 1, j);
    if forall|k: int| 0 <= k < i ==> (#[trigger] namespaces[k])@ != namespaces[i]@ {
        lemma_no_instance(namespaces, namespaces[i]@, 0, i);
    }
}

proof fn lemma_no_instance(namespaces: Seq<String>, namespace: Seq<char>, lo: int, hi: int)
    requires
        0 <= lo <= hi <= namespaces.len(),
        forall|k: int| lo <= k < hi ==> (#[trigger] namespaces[k])@ != namespace,
    ensures
        instances(namespaces, namespace, hi) == instances(namespaces, namespace, lo),
    decreases hi - lo,
{
    if lo < hi {
        lemma_no_instance(namespaces, namespace, lo, hi - 1);
        assert(namespaces[hi - 1]@ != namespace);
    }
}

} // verus!
