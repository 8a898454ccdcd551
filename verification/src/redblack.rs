use vstd::prelude::*;
use vstd::arithmetic::power2::pow2;
use vstd::multiset::Multiset;

verus! {

/// Items stored in a [`RedBlackTree`] are ordered by an unsigned integer key.
pub trait SortKey: Sized {
    /// The key by which the item is ordered.
    spec fn key_spec(&self) -> u64;

    /// Computes the item's key.
    fn sort_key(&self) -> (k: u64)
        ensures
            k == self.key_spec(),
    ;
}

impl SortKey for u64 {
    open spec fn key_spec(&self) -> u64 {
        *self
    }

    fn sort_key(&self) -> (k: u64) {
        *self
    }
}

/// Keys never decrease from left to right.
#[verifier::opaque]
pub open spec fn sorted_by_key<T: SortKey>(s: Seq<T>) -> bool {
    forall|i: int, j: int| 0 <= i < j < s.len() ==> s[i].key_spec() <= s[j].key_spec()
}

/// Some item of `s` has key `k`.
pub open spec fn has_key<T: SortKey>(s: Seq<T>, k: u64) -> bool {
    exists|i: int| 0 <= i < s.len() && s[i].key_spec() == k
}

/// The items of `s` whose key is above `k`, in order.
pub open spec fn keys_above<T: SortKey>(s: Seq<T>, k: u64) -> Seq<T> {
    s.filter(|x: T| x.key_spec() > k)
}

/// The items of `s` whose key is at most `k`, in order.
pub open spec fn keys_at_most<T: SortKey>(s: Seq<T>, k: u64) -> Seq<T> {
    s.filter(|x: T| x.key_spec() <= k)
}

/// The sequence that inserting `v` into the sorted sequence `s` gives: `v` put after
/// every item whose key is at most its own and before the others, so that items with
/// equal keys are all kept, in the order they came.
pub open spec fn inserted<T: SortKey>(s: Seq<T>, v: T) -> Seq<T> {
    keys_at_most(s, v.key_spec()) + seq![v] + keys_above(s, v.key_spec())
}

/// A node's color.
#[derive(Clone, Copy, Debug)]
pub enum Color {
    Red,
    Black,
}

/// A node of the tree.
pub struct Node<T: SortKey> {
    value: T,
    color: Color,
    left: Option<Box<Node<T>>>,
    right: Option<Box<Node<T>>>,
}

/// A left-leaning red-black search tree; items with equal keys are all kept.
pub struct RedBlackTree<T: SortKey> {
    root: Option<Box<Node<T>>>,
    size: usize,
}

/// The in-order sequence of the items of a subtree.
spec fn elems<T: SortKey>(t: Option<Box<Node<T>>>) -> Seq<T>
    decreases t,
{
    match t {
        None => Seq::empty(),
        Some(n) => elems(n.left) + seq![n.value] + elems(n.right),
    }
}

spec fn height<T: SortKey>(t: Option<Box<Node<T>>>) -> nat
    decreases t,
{
    match t {
        None => 0,
        Some(n) => {
            let l = height(n.left);
            let r = height(n.right);
            1 + if l < r { r } else { l }
        },
    }
}

/// Every item of `s` has a key at most `k`.
spec fn all_at_most<T: SortKey>(s: Seq<T>, k: u64) -> bool {
    forall|i: int| 0 <= i < s.len() ==> #[trigger] s[i].key_spec() <= k
}

/// Every item of `s` has a key at least `k`.
spec fn all_at_least<T: SortKey>(s: Seq<T>, k: u64) -> bool {
    forall|i: int| 0 <= i < s.len() ==> #[trigger] s[i].key_spec() >= k
}

proof fn lemma_sorted_empty<T: SortKey>()
    ensures
        sorted_by_key(Seq::<T>::empty()),
{
    reveal(sorted_by_key);
}

proof fn lemma_sorted_split<T: SortKey>(l: Seq<T>, v: T, r: Seq<T>)
    ensures
        sorted_by_key(l + seq![v] + r) <==> (sorted_by_key(l) && sorted_by_key(r) && all_at_most(
            l,
            v.key_spec(),
        ) && all_at_least(r, v.key_spec())),
{
    reveal(sorted_by_key);
    let s = l + seq![v] + r;
    if sorted_by_key(s) {
        assert forall|i: int, j: int| 0 <= i < j < l.len() implies l[i].key_spec()
            <= l[j].key_spec() by {
            assert(s[i] == l[i] && s[j] == l[j]);
        }
        assert forall|i: int, j: int| 0 <= i < j < r.len() implies r[i].key_spec()
            <= r[j].key_spec() by {
            assert(s[l.len() + 1 + i] == r[i] && s[l.len() + 1 + j] == r[j]);
        }
        assert forall|i: int| 0 <= i < l.len() implies #[trigger] l[i].key_spec()
            <= v.key_spec() by {
            assert(s[i] == l[i] && s[l.len() as int] == v);
        }
        assert forall|i: int| 0 <= i < r.len() implies #[trigger] r[i].key_spec()
            >= v.key_spec() by {
            assert(s[l.len() + 1 + i] == r[i] && s[l.len() as int] == v);
        }
    }
    if sorted_by_key(l) && sorted_by_key(r) && all_at_most(l, v.key_spec()) && all_at_least(
        r,
        v.key_spec(),
    ) {
        assert forall|i: int, j: int| 0 <= i < j < s.len() implies s[i].key_spec()
            <= s[j].key_spec() by {
            let n = l.len() as int;
            if j < n {
                assert(s[i] == l[i] && s[j] == l[j]);
            } else if j == n {
                assert(s[i] == l[i] && s[j] == v);
            } else if i < n {
                assert(s[i] == l[i] && s[j] == r[j - n - 1]);
                assert(l[i].key_spec() <= v.key_spec());
                assert(r[j - n - 1].key_spec() >= v.key_spec());
            } else if i == n {
                assert(s[i] == v && s[j] == r[j - n - 1]);
            } else {
                assert(s[i] == r[i - n - 1] && s[j] == r[j - n - 1]);
            }
        }
    }
}

proof fn lemma_filter_all<T>(s: Seq<T>, p: spec_fn(T) -> bool)
    requires
        forall|i: int| 0 <= i < s.len() ==> p(#[trigger] s[i]),
    ensures
        s.filter(p) == s,
    decreases s.len(),
{
    reveal(Seq::filter);
    if s.len() > 0 {
        assert forall|i: int| 0 <= i < s.drop_last().len() implies p(
            #[trigger] s.drop_last()[i],
        ) by {
            assert(s.drop_last()[i] == s[i]);
        }
        lemma_filter_all(s.drop_last(), p);
        assert(p(s[s.len() - 1]));
        assert(s.drop_last().push(s.last()) =~= s);
    }
}

proof fn lemma_filter_none<T>(s: Seq<T>, p: spec_fn(T) -> bool)
    requires
        forall|i: int| 0 <= i < s.len() ==> !p(#[trigger] s[i]),
    ensures
        s.filter(p) == Seq::<T>::empty(),
    decreases s.len(),
{
    reveal(Seq::filter);
    if s.len() > 0 {
        assert forall|i: int| 0 <= i < s.drop_last().len() implies !p(
            #[trigger] s.drop_last()[i],
        ) by {
            assert(s.drop_last()[i] == s[i]);
        }
        lemma_filter_none(s.drop_last(), p);
        assert(!p(s[s.len() - 1]));
    }
}

proof fn lemma_filter_single<T>(v: T, p: spec_fn(T) -> bool)
    ensures
        seq![v].filter(p) == (if p(v) { seq![v] } else { Seq::<T>::empty() }),
{
    reveal(Seq::filter);
    assert(seq![v].drop_last() =~= Seq::<T>::empty());
    reveal_with_fuel(Seq::filter, 2);
    assert(Seq::<T>::empty().push(v) =~= seq![v]);
}

/// Filtering a three-part concatenation filters each part.
proof fn lemma_filter3<T>(a: Seq<T>, v: T, b: Seq<T>, p: spec_fn(T) -> bool)
    ensures
        (a + seq![v] + b).filter(p) == a.filter(p) + seq![v].filter(p) + b.filter(p),
{
    Seq::filter_distributes_over_add(a + seq![v], b, p);
    Seq::filter_distributes_over_add(a, seq![v], p);
}

proof fn lemma_filter_sorted<T: SortKey>(s: Seq<T>, p: spec_fn(T) -> bool)
    requires
        sorted_by_key(s),
    ensures
        sorted_by_key(s.filter(p)),
    decreases s.len(),
{
    reveal(sorted_by_key);
    reveal(Seq::filter);
    if s.len() > 0 {
        let d = s.drop_last();
        assert(sorted_by_key(d)) by {
            assert forall|i: int, j: int| 0 <= i < j < d.len() implies d[i].key_spec()
                <= d[j].key_spec() by {
                assert(d[i] == s[i] && d[j] == s[j]);
            }
        }
        lemma_filter_sorted(d, p);
        let f = d.filter(p);
        if p(s.last()) {
            assert forall|i: int| 0 <= i < f.len() implies #[trigger] f[i].key_spec()
                <= s.last().key_spec() by {
                assert(f.contains(f[i]));
                d.lemma_filter_contains_rev(p, f[i]);
                let j = choose|j: int| 0 <= j < d.len() && d[j] == f[i];
                assert(s[j] == d[j]);
            }
            let g = f.push(s.last());
            assert forall|i: int, j: int| 0 <= i < j < g.len() implies g[i].key_spec()
                <= g[j].key_spec() by {
                if j < f.len() {
                    assert(g[i] == f[i] && g[j] == f[j]);
                } else {
                    assert(g[i] == f[i]);
                }
            }
        }
    }
}

/// The items of a filtered sequence come from the sequence.
proof fn lemma_filter_member<T>(s: Seq<T>, p: spec_fn(T) -> bool, i: int)
    requires
        0 <= i < s.filter(p).len(),
    ensures
        s.contains(s.filter(p)[i]),
        p(s.filter(p)[i]),
{
    broadcast use Seq::lemma_filter_contains_rev, Seq::lemma_filter_pred;

    assert(s.filter(p).contains(s.filter(p)[i]));
}


/// Which side of a node a key lies on, in a sorted tree.
proof fn lemma_has_key_sides<T: SortKey>(l: Seq<T>, nv: T, r: Seq<T>, k: u64)
    requires
        sorted_by_key(l + seq![nv] + r),
    ensures
        k < nv.key_spec() ==> (has_key(l + seq![nv] + r, k) == has_key(l, k)),
        k > nv.key_spec() ==> (has_key(l + seq![nv] + r, k) == has_key(r, k)),
        k == nv.key_spec() ==> has_key(l + seq![nv] + r, k),
        sorted_by_key(l),
        sorted_by_key(r),
{
    lemma_sorted_split(l, nv, r);
    lemma_has_key_split(l, nv, r, k);
    if k < nv.key_spec() && has_key(r, k) {
        let i = choose|i: int| 0 <= i < r.len() && r[i].key_spec() == k;
        assert(r[i].key_spec() >= nv.key_spec());
    }
    if k > nv.key_spec() && has_key(l, k) {
        let i = choose|i: int| 0 <= i < l.len() && l[i].key_spec() == k;
        assert(l[i].key_spec() <= nv.key_spec());
    }
}

/// Taking the items at most `k` out of a sorted tree, at a node whose key is at most `k`.
proof fn lemma_split_at_node_low<T: SortKey>(l: Seq<T>, nv: T, r: Seq<T>, k: u64)
    requires
        sorted_by_key(l + seq![nv] + r),
        nv.key_spec() <= k,
    ensures
        keys_at_most(l + seq![nv] + r, k) == l + seq![nv] + keys_at_most(r, k),
        keys_above(l + seq![nv] + r, k) == keys_above(r, k),
        sorted_by_key(r),
{
    lemma_sorted_split(l, nv, r);
    let pm = |x: T| x.key_spec() <= k;
    let pa = |x: T| x.key_spec() > k;
    lemma_filter3(l, nv, r, pm);
    lemma_filter3(l, nv, r, pa);
    lemma_filter_single(nv, pm);
    lemma_filter_single(nv, pa);
    lemma_filter_all(l, pm);
    lemma_filter_none(l, pa);
    assert(keys_above(l + seq![nv] + r, k) =~= keys_above(r, k));
}

/// Taking the items at most `k` out of a sorted tree, at a node whose key is above `k`.
proof fn lemma_split_at_node_high<T: SortKey>(l: Seq<T>, nv: T, r: Seq<T>, k: u64)
    requires
        sorted_by_key(l + seq![nv] + r),
        nv.key_spec() > k,
    ensures
        keys_at_most(l + seq![nv] + r, k) == keys_at_most(l, k),
        keys_above(l + seq![nv] + r, k) == keys_above(l, k) + seq![nv] + r,
        sorted_by_key(l),
{
    lemma_sorted_split(l, nv, r);
    let pm = |x: T| x.key_spec() <= k;
    let pa = |x: T| x.key_spec() > k;
    lemma_filter3(l, nv, r, pm);
    lemma_filter3(l, nv, r, pa);
    lemma_filter_single(nv, pm);
    lemma_filter_single(nv, pa);
    lemma_filter_none(r, pm);
    lemma_filter_all(r, pa);
    assert(keys_at_most(l + seq![nv] + r, k) =~= keys_at_most(l, k));
}

/// The items at most `k` are the front of a sorted sequence and those above `k` its back:
/// stated index by index.
spec fn front_and_back<T>(s: Seq<T>, a: Seq<T>, b: Seq<T>) -> bool {
    &&& a.len() + b.len() == s.len()
    &&& forall|i: int| 0 <= i < a.len() ==> #[trigger] a[i] == s[i]
    &&& forall|j: int| 0 <= j < b.len() ==> #[trigger] b[j] == s[a.len() + j]
}

proof fn lemma_front_and_back<T: SortKey>(s: Seq<T>, k: u64)
    requires
        sorted_by_key(s),
    ensures
        front_and_back(s, keys_at_most(s, k), keys_above(s, k)),
    decreases s.len(),
{
    let pm = |x: T| x.key_spec() <= k;
    let pa = |x: T| x.key_spec() > k;
    if s.len() == 0 {
        lemma_filter_none(s, pm);
        lemma_filter_none(s, pa);
    } else {
        let d = s.drop_last();
        let x = s.last();
        lemma_sorted_drop_last(s);
        lemma_front_and_back(d, k);
        let ad = d.filter(pm);
        let bd = d.filter(pa);
        assert(s.filter(pm) == if pm(x) { ad.push(x) } else { ad }) by {
            reveal(Seq::filter);
        }
        assert(s.filter(pa) == if pa(x) { bd.push(x) } else { bd }) by {
            reveal(Seq::filter);
        }
        if x.key_spec() <= k {
            assert forall|i: int| 0 <= i < d.len() implies pm(#[trigger] d[i]) by {}
            assert forall|i: int| 0 <= i < d.len() implies !pa(#[trigger] d[i]) by {}
            lemma_filter_all(d, pm);
            lemma_filter_none(d, pa);
            let a = s.filter(pm);
            assert forall|i: int| 0 <= i < a.len() implies #[trigger] a[i] == s[i] by {
                if i < d.len() {
                    assert(a[i] == d[i]);
                }
            }
        } else {
            let a = s.filter(pm);
            let b = s.filter(pa);
            assert forall|i: int| 0 <= i < a.len() implies #[trigger] a[i] == s[i] by {
                assert(a[i] == ad[i]);
                assert(ad[i] == d[i]);
            }
            assert forall|j: int| 0 <= j < b.len() implies #[trigger] b[j] == s[a.len() + j] by {
                if j < bd.len() {
                    assert(b[j] == bd[j]);
                    assert(bd[j] == d[ad.len() + j]);
                }
            }
        }
    }
}

/// Inserting into a sorted sequence keeps it sorted, and adds one item.
proof fn lemma_inserted_sorted<T: SortKey>(s: Seq<T>, v: T)
    requires
        sorted_by_key(s),
    ensures
        sorted_by_key(inserted(s, v)),
        inserted(s, v).len() == s.len() + 1,
{
    let k = v.key_spec();
    let pm = |x: T| x.key_spec() <= k;
    let pa = |x: T| x.key_spec() > k;
    lemma_filter_sorted(s, pm);
    lemma_filter_sorted(s, pa);
    lemma_front_and_back(s, k);
    assert forall|i: int| 0 <= i < keys_at_most(s, k).len() implies #[trigger] keys_at_most(
        s,
        k,
    )[i].key_spec() <= k by {
        lemma_filter_member(s, pm, i);
    }
    assert forall|i: int| 0 <= i < keys_above(s, k).len() implies #[trigger] keys_above(
        s,
        k,
    )[i].key_spec() >= k by {
        lemma_filter_member(s, pa, i);
    }
    lemma_sorted_split(keys_at_most(s, k), v, keys_above(s, k));
}

proof fn lemma_has_key_split<T: SortKey>(l: Seq<T>, v: T, r: Seq<T>, k: u64)
    ensures
        has_key(l + seq![v] + r, k) <==> (has_key(l, k) || v.key_spec() == k || has_key(r, k)),
{
    let s = l + seq![v] + r;
    let n = l.len() as int;
    if has_key(s, k) {
        let i = choose|i: int| 0 <= i < s.len() && s[i].key_spec() == k;
        if i < n {
            assert(s[i] == l[i]);
        } else if i > n {
            assert(s[i] == r[i - n - 1]);
        }
    }
    if has_key(l, k) {
        let i = choose|i: int| 0 <= i < l.len() && l[i].key_spec() == k;
        assert(s[i] == l[i]);
    }
    if v.key_spec() == k {
        assert(s[n] == v);
    }
    if has_key(r, k) {
        let i = choose|i: int| 0 <= i < r.len() && r[i].key_spec() == k;
        assert(s[n + 1 + i] == r[i]);
    }
}

/// Inserting a key below a node's key only changes the part left of the node.
proof fn lemma_inserted_left<T: SortKey>(l: Seq<T>, nv: T, r: Seq<T>, v: T)
    requires
        sorted_by_key(l + seq![nv] + r),
        v.key_spec() < nv.key_spec(),
    ensures
        inserted(l + seq![nv] + r, v) == inserted(l, v) + seq![nv] + r,
{
    let k = v.key_spec();
    lemma_sorted_split(l, nv, r);
    let pm = |x: T| x.key_spec() <= k;
    let pa = |x: T| x.key_spec() > k;
    lemma_filter3(l, nv, r, pm);
    lemma_filter3(l, nv, r, pa);
    lemma_filter_single(nv, pm);
    lemma_filter_single(nv, pa);
    lemma_filter_none(r, pm);
    lemma_filter_all(r, pa);
    assert(keys_at_most(l + seq![nv] + r, k) =~= keys_at_most(l, k));
    assert(keys_above(l + seq![nv] + r, k) =~= keys_above(l, k) + seq![nv] + r);
    assert(inserted(l + seq![nv] + r, v) =~= inserted(l, v) + seq![nv] + r);
}

/// Inserting a key at least a node's key only changes the part right of the node.
proof fn lemma_inserted_right<T: SortKey>(l: Seq<T>, nv: T, r: Seq<T>, v: T)
    requires
        sorted_by_key(l + seq![nv] + r),
        v.key_spec() >= nv.key_spec(),
    ensures
        inserted(l + seq![nv] + r, v) == l + seq![nv] + inserted(r, v),
{
    let k = v.key_spec();
    lemma_sorted_split(l, nv, r);
    let pm = |x: T| x.key_spec() <= k;
    let pa = |x: T| x.key_spec() > k;
    lemma_filter3(l, nv, r, pm);
    lemma_filter3(l, nv, r, pa);
    lemma_filter_single(nv, pm);
    lemma_filter_single(nv, pa);
    lemma_filter_all(l, pm);
    lemma_filter_none(l, pa);
    assert(keys_at_most(l + seq![nv] + r, k) =~= l + seq![nv] + keys_at_most(r, k));
    assert(keys_above(l + seq![nv] + r, k) =~= keys_above(r, k));
    assert(inserted(l + seq![nv] + r, v) =~= l + seq![nv] + inserted(r, v));
}

impl<T: SortKey> Node<T> {
    fn new(value: T) -> (n: Self)
        ensures
            n.value == value,
            n.color == Color::Red,
            n.left is None,
            n.right is None,
    {
        Node { value, color: Color::Red, left: None, right: None }
    }
}

spec fn red<T: SortKey>(t: Option<Box<Node<T>>>) -> bool {
    match t {
        Some(n) => n.color == Color::Red,
        None => false,
    }
}

/// The subtree with the given top.
spec fn mk<T: SortKey>(
    v: T,
    c: Color,
    l: Option<Box<Node<T>>>,
    r: Option<Box<Node<T>>>,
) -> Option<Box<Node<T>>> {
    Some(Box::new(Node { value: v, color: c, left: l, right: r }))
}

/// The subtree `t` with its top recolored to `c`.
spec fn recolored<T: SortKey>(t: Option<Box<Node<T>>>, c: Color) -> Option<Box<Node<T>>> {
    match t {
        Some(n) => mk(n.value, c, n.left, n.right),
        None => None,
    }
}

/// `t` is a left-leaning red-black subtree with `h` black nodes on every path from its
/// top down: no right link is red, no red node has a red child, and the black count
/// agrees on all paths.
spec fn llrb<T: SortKey>(t: Option<Box<Node<T>>>, h: nat) -> bool
    decreases t,
{
    match t {
        None => h == 0,
        Some(n) => !red(n.right) && if n.color == Color::Red {
            !red(n.left) && llrb(n.left, h) && llrb(n.right, h)
        } else {
            h >= 1 && llrb(n.left, (h - 1) as nat) && llrb(n.right, (h - 1) as nat)
        },
    }
}

/// A balanced subtree of black height `h` is at most `2h` levels deep below a black top,
/// one more below a red one, and holds at least `2^h - 1` items.
proof fn lemma_llrb_bounds<T: SortKey>(t: Option<Box<Node<T>>>, h: nat)
    requires
        llrb(t, h),
    ensures
        height(t) <= 2 * h + if red(t) { 1int } else { 0int },
        elems(t).len() + 1 >= pow2(h),
    decreases t,
{
    match t {
        None => {
            vstd::arithmetic::power2::lemma_pow2_pos(0);
            assert(pow2(0) == 1) by {
                vstd::arithmetic::power2::lemma2_to64();
            }
        },
        Some(n) => {
            if n.color == Color::Red {
                lemma_llrb_bounds(n.left, h);
                lemma_llrb_bounds(n.right, h);
            } else {
                let hm = (h - 1) as nat;
                lemma_llrb_bounds(n.left, hm);
                lemma_llrb_bounds(n.right, hm);
                vstd::arithmetic::power2::lemma_pow2_unfold(h);
            }
        },
    }
}

/// `t` has a red top whose two subtrees are balanced at black height `h` and whose
/// right link is black; its left child may be red. This is what an insertion below a
/// red node leaves for the parent to repair.
spec fn red_top<T: SortKey>(t: Option<Box<Node<T>>>, h: nat) -> bool {
    match t {
        Some(n) => n.color == Color::Red && !red(n.right) && llrb(n.left, h) && llrb(n.right, h),
        None => false,
    }
}

impl<T: SortKey> RedBlackTree<T> {
    fn is_red(node: &Option<Box<Node<T>>>) -> (r: bool)
        ensures
            r == red(*node),
    {
        match node {
            Some(n) => match n.color {
                Color::Red => true,
                Color::Black => false,
            },
            None => false,
        }
    }

    fn rotate_left(mut node: Box<Node<T>>) -> (r: Box<Node<T>>)
        requires
            node.right is Some,
        ensures
            elems(Some(r)) == elems(Some(node)),
            Some(r) == mk(
                node.right.unwrap().value,
                node.color,
                mk(node.value, Color::Red, node.left, node.right.unwrap().left),
                node.right.unwrap().right,
            ),
    {
        let ghost l = elems(node.left);
        let ghost v = node.value;
        let ghost rl = elems(node.right.unwrap().left);
        let ghost rv = node.right.unwrap().value;
        let ghost rr = elems(node.right.unwrap().right);
        let ghost whole = elems(Some(node));
        assert(elems(node.right) == rl + seq![rv] + rr);
        assert(whole =~= l + seq![v] + (rl + seq![rv] + rr));
        let mut right = node.right.take().unwrap();
        let color = node.color;
        node.right = right.left.take();
        node.color = Color::Red;
        assert(elems(Some(node)) == l + seq![v] + rl);
        right.left = Some(node);
        right.color = color;
        assert(elems(Some(right)) =~= l + seq![v] + rl + seq![rv] + rr);
        right
    }

    fn rotate_right(mut node: Box<Node<T>>) -> (r: Box<Node<T>>)
        requires
            node.left is Some,
        ensures
            elems(Some(r)) == elems(Some(node)),
            Some(r) == mk(
                node.left.unwrap().value,
                node.color,
                node.left.unwrap().left,
                mk(node.value, Color::Red, node.left.unwrap().right, node.right),
            ),
    {
        let ghost ll = elems(node.left.unwrap().left);
        let ghost lv = node.left.unwrap().value;
        let ghost lr = elems(node.left.unwrap().right);
        let ghost v = node.value;
        let ghost r = elems(node.right);
        let ghost whole = elems(Some(node));
        assert(elems(node.left) == ll + seq![lv] + lr);
        assert(whole =~= ll + seq![lv] + lr + seq![v] + r);
        let mut left = node.left.take().unwrap();
        node.left = left.right.take();
        let color = node.color;
        node.color = Color::Red;
        assert(elems(Some(node)) == lr + seq![v] + r);
        left.right = Some(node);
        left.color = color;
        assert(elems(Some(left)) =~= ll + seq![lv] + (lr + seq![v] + r));
        left
    }

    fn flip_colors(node: &mut Box<Node<T>>)
        ensures
            elems(Some(*final(node))) == elems(Some(*old(node))),
            Some(*final(node)) == mk(
                old(node).value,
                Color::Red,
                recolored(old(node).left, Color::Black),
                recolored(old(node).right, Color::Black),
            ),
    {
        node.color = Color::Red;
        if let Some(mut left) = node.left.take() {
            let ghost before = elems(Some(left));
            left.color = Color::Black;
            assert(elems(Some(left)) == before);
            node.left = Some(left);
        }
        if let Some(mut right) = node.right.take() {
            let ghost before = elems(Some(right));
            right.color = Color::Black;
            assert(elems(Some(right)) == before);
            node.right = Some(right);
        }
    }

    fn balance(node: Box<Node<T>>, Ghost(h): Ghost<nat>) -> (r: Box<Node<T>>)
        ensures
            elems(Some(r)) == elems(Some(node)),
            node.color == Color::Black && h >= 1 && (llrb(node.left, (h - 1) as nat) || red_top(
                node.left,
                (h - 1) as nat,
            )) && llrb(node.right, (h - 1) as nat) && !red(node.right) ==> llrb(Some(r), h),
            node.color == Color::Black && h >= 1 && llrb(node.left, (h - 1) as nat) && llrb(
                node.right,
                (h - 1) as nat,
            ) ==> llrb(Some(r), h),
            node.color == Color::Red && llrb(node.left, h) && llrb(node.right, h) && !red(
                node.right,
            ) ==> red_top(Some(r), h),
            node.color == Color::Red && llrb(node.left, h) && !red(node.left) && llrb(
                node.right,
                h,
            ) ==> red_top(Some(r), h),
    {
        proof {
            reveal_with_fuel(llrb, 3);
        }
        let mut node = node;
        if Self::is_red(&node.right) && !Self::is_red(&node.left) {
            node = Self::rotate_left(node);
        }
        let left_red = Self::is_red(&node.left);
        if left_red {
            let left_left_red = match &node.left {
                Some(l) => Self::is_red(&l.left),
                None => false,
            };
            if left_left_red {
                node = Self::rotate_right(node);
            }
        }
        if Self::is_red(&node.left) && Self::is_red(&node.right) {
            Self::flip_colors(&mut node);
        }
        node
    }

    fn insert_recursive(node: Option<Box<Node<T>>>, value: T, Ghost(h): Ghost<nat>) -> (r: Box<
        Node<T>,
    >)
        requires
            sorted_by_key(elems(node)),
        ensures
            elems(Some(r)) == inserted(elems(node), value),
            llrb(node, h) && !red(node) ==> llrb(Some(r), h),
            llrb(node, h) && red(node) ==> red_top(Some(r), h),
        decreases node,
    {
        match node {
            None => {
                let n = Box::new(Node::new(value));
                assert(elems(Some(n)) =~= seq![value]);
                assert(inserted(Seq::<T>::empty(), value) =~= seq![value]) by {
                    lemma_filter_none(Seq::<T>::empty(), |x: T| x.key_spec() < value.key_spec());
                    lemma_filter_none(Seq::<T>::empty(), |x: T| x.key_spec() > value.key_spec());
                }
                n
            },
            Some(mut n) => {
                let ghost l = elems(n.left);
                let ghost nv = n.value;
                let ghost r = elems(n.right);
                proof {
                    lemma_sorted_split(l, nv, r);
                }
                let k = value.sort_key();
                let nk = n.value.sort_key();
                let ghost ch: nat = if n.color == Color::Red { h } else { (h - 1) as nat };
                if k < nk {
                    proof {
                        lemma_inserted_left(l, nv, r, value);
                    }
                    let sub = n.left.take();
                    n.left = Some(Self::insert_recursive(sub, value, Ghost(ch)));
                } else {
                    proof {
                        lemma_inserted_right(l, nv, r, value);
                    }
                    let sub = n.right.take();
                    n.right = Some(Self::insert_recursive(sub, value, Ghost(ch)));
                }
                Self::balance(n, Ghost(h))
            },
        }
    }
}

impl<T: SortKey> View for RedBlackTree<T> {
    type V = Seq<T>;

    /// The items of the tree in order.
    closed spec fn view(&self) -> Seq<T> {
        elems(self.root)
    }
}

impl<T: SortKey> RedBlackTree<T> {
    #[verifier::type_invariant]
    spec fn inv(self) -> bool {
        &&& sorted_by_key(elems(self.root))
        &&& elems(self.root).len() == self.size
    }

    /// The tree keeps the shape that its insertion steps are built for: the root is
    /// black, no right link is red, no red node has a red child, and every path from
    /// the root down meets the same number of black nodes.
    pub closed spec fn is_balanced(&self) -> bool {
        !red(self.root) && exists|h: nat| llrb(self.root, h)
    }

    /// The number of levels of the tree: the longest walk that a lookup can take.
    pub closed spec fn depth(&self) -> nat {
        height(self.root)
    }

    /// The number of items, which `len` reports.
    pub closed spec fn size_spec(&self) -> usize {
        self.size
    }

    /// An empty tree.
    pub fn new() -> (t: Self)
        ensures
            t@ == Seq::<T>::empty(),
            t.size_spec() == 0,
            t.is_balanced(),
    {
        proof {
            lemma_sorted_empty::<T>();
            assert(llrb(None::<Box<Node<T>>>, 0));
        }
        RedBlackTree { root: None, size: 0 }
    }

    /// Inserts `value` after every item whose key is at most its own; the count grows by
    /// one. The root is black afterwards.
    pub fn insert(&mut self, value: T)
        requires
            old(self).size_spec() < usize::MAX,
        ensures
            final(self)@ == inserted(old(self)@, value),
            sorted_by_key(final(self)@),
            final(self).size_spec() == old(self).size_spec() + 1,
            old(self).is_balanced() ==> final(self).is_balanced(),
    {
        let mut tree = RedBlackTree::new();
        std::mem::swap(&mut tree, self);
        proof {
            use_type_invariant(&tree);
            lemma_inserted_sorted(elems(tree.root), value);
        }
        let RedBlackTree { root, size } = tree;
        let ghost h: nat = choose|h: nat| llrb(root, h);
        let mut new_root = Self::insert_recursive(root, value, Ghost(h));
        let ghost before = elems(Some(new_root));
        let ghost grown = Some(new_root);
        new_root.color = Color::Black;
        assert(elems(Some(new_root)) == before);
        assert(!red(root) && llrb(root, h) ==> llrb(Some(new_root), if red(grown) { h + 1 } else { h }));
        *self = RedBlackTree { root: Some(new_root), size: size + 1 };
    }

    /// The number of items.
    pub fn len(&self) -> (n: usize)
        ensures
            n == self.size_spec(),
            n == self@.len(),
    {
        proof {
            use_type_invariant(self);
        }
        self.size
    }

    /// Whether the tree holds no item.
    pub fn is_empty(&self) -> (b: bool)
        ensures
            b == (self.size_spec() == 0),
            b == (self@.len() == 0),
    {
        proof {
            use_type_invariant(self);
        }
        self.size == 0
    }
}

impl<T: SortKey> RedBlackTree<T> {
    /// Whether an item with the key of `value` is in the tree.
    pub fn contains(&self, value: &T) -> (b: bool)
        ensures
            b == has_key(self@, value.key_spec()),
    {
        proof {
            use_type_invariant(self);
        }
        let k = value.sort_key();
        let mut current = &self.root;
        loop
            invariant
                k == value.key_spec(),
                sorted_by_key(elems(*current)),
                has_key(self@, k) == has_key(elems(*current), k),
            decreases height(*current),
        {
            match current {
                None => {
                    assert(!has_key(elems(*current), k));
                    return false;
                },
                Some(node) => {
                    proof {
                        lemma_has_key_sides(elems(node.left), node.value, elems(node.right), k);
                    }
                    let nk = node.value.sort_key();
                    if k < nk {
                        current = &node.left;
                    } else if k > nk {
                        current = &node.right;
                    } else {
                        return true;
                    }
                },
            }
        }
    }

    /// References to the items in increasing key order.
    pub fn inorder_traversal(&self) -> (v: Vec<&T>)
        ensures
            v@.len() == self@.len(),
            forall|i: int| 0 <= i < v@.len() ==> *v@[i] == self@[i],
            sorted_by_key(self@),
    {
        proof {
            use_type_invariant(self);
        }
        let mut result = Vec::with_capacity(self.size);
        Self::inorder_recursive(&self.root, &mut result);
        result
    }

    fn inorder_recursive<'a>(node: &'a Option<Box<Node<T>>>, result: &mut Vec<&'a T>)
        ensures
            final(result)@.len() == old(result)@.len() + elems(*node).len(),
            forall|i: int|
                0 <= i < old(result)@.len() ==> final(result)@[i] == old(result)@[i],
            forall|i: int|
                0 <= i < elems(*node).len() ==> *final(result)@[old(result)@.len() + i]
                    == elems(*node)[i],
        decreases *node,
    {
        if let Some(n) = node {
            let ghost l = elems(n.left);
            let ghost r = elems(n.right);
            let ghost start = result@.len();
            Self::inorder_recursive(&n.left, result);
            result.push(&n.value);
            let ghost mid = result@;
            Self::inorder_recursive(&n.right, result);
            assert forall|i: int| 0 <= i < elems(*node).len() implies *result@[start + i]
                == elems(*node)[i] by {
                let e = l + seq![n.value] + r;
                assert(elems(*node) == e);
                if i < l.len() {
                    assert(e[i] == l[i]);
                    assert(result@[start + i] == mid[start + i]);
                } else if i == l.len() {
                    assert(e[i] == n.value);
                    assert(result@[start + i] == mid[start + i]);
                } else {
                    assert(e[i] == r[i - l.len() - 1]);
                }
            }
        }
    }

    fn collect_all_values(node: Option<Box<Node<T>>>) -> (values: Vec<T>)
        ensures
            values@ == elems(node),
        decreases node,
    {
        let mut values = Vec::new();
        if let Some(boxed_node) = node {
            let n = *boxed_node;
            let mut left = Self::collect_all_values(n.left);
            values.append(&mut left);
            values.push(n.value);
            let mut right = Self::collect_all_values(n.right);
            values.append(&mut right);
            assert(values@ =~= elems(node));
        }
        values
    }

    #[verifier::spinoff_prover]
    #[verifier::rlimit(30)]
    fn remove_less_than_or_equal_recursive(
        node: Option<Box<Node<T>>>,
        k: u64,
        removed: &mut Vec<T>,
    ) -> (rest: Option<Box<Node<T>>>)
        requires
            sorted_by_key(elems(node)),
        ensures
            final(removed)@ == old(removed)@ + keys_at_most(elems(node), k),
            elems(rest) == keys_above(elems(node), k),
        decreases node,
    {
        match node {
            None => {
                proof {
                    lemma_filter_none(Seq::<T>::empty(), |x: T| x.key_spec() <= k);
                    lemma_filter_none(Seq::<T>::empty(), |x: T| x.key_spec() > k);
                }
                assert(removed@ =~= old(removed)@ + keys_at_most(elems(node), k));
                None
            },
            Some(boxed_node) => {
                let n = *boxed_node;
                let ghost l = elems(n.left);
                let ghost nv = n.value;
                let ghost r = elems(n.right);
                assert(elems(node) == l + seq![nv] + r);
                if n.value.sort_key() <= k {
                    proof {
                        lemma_split_at_node_low(l, nv, r, k);
                    }
                    let mut left = Self::collect_all_values(n.left);
                    removed.append(&mut left);
                    removed.push(n.value);
                    let rest = Self::remove_less_than_or_equal_recursive(n.right, k, removed);
                    assert(removed@ =~= old(removed)@ + (l + seq![nv] + keys_at_most(r, k)));
                    rest
                } else {
                    proof {
                        lemma_split_at_node_high(l, nv, r, k);
                    }
                    let new_left = Self::remove_less_than_or_equal_recursive(n.left, k, removed);
                    let kept = Box::new(
                        Node { value: n.value, color: n.color, left: new_left, right: n.right },
                    );
                    assert(elems(Some(kept)) =~= keys_above(l, k) + seq![nv] + r);
                    Some(kept)
                }
            },
        }
    }

    /// Removes every item whose key is at most that of `value` and returns them in
    /// increasing key order. The root is black afterwards.
    pub fn remove_less_than_or_equal(&mut self, value: &T) -> (removed: Vec<T>)
        ensures
            removed@ == keys_at_most(old(self)@, value.key_spec()),
            final(self)@ == keys_above(old(self)@, value.key_spec()),
            final(self).size_spec() == old(self).size_spec() - removed@.len(),
            removed@.len() + final(self)@.len() == old(self)@.len(),
            forall|i: int| 0 <= i < removed@.len() ==> #[trigger] removed@[i] == old(self)@[i],
            forall|j: int|
                0 <= j < final(self)@.len() ==> #[trigger] final(self)@[j] == old(self)@[removed@.len()
                    + j],
            sorted_by_key(removed@),
            sorted_by_key(final(self)@),
    {
        proof {
            use_type_invariant(&*self);
        }
        let k = value.sort_key();
        let mut tree = RedBlackTree::new();
        std::mem::swap(&mut tree, self);
        proof {
            use_type_invariant(&tree);
        }
        let ghost s = tree@;
        let RedBlackTree { root, size } = tree;
        let mut removed = Vec::new();
        let rest = Self::remove_less_than_or_equal_recursive(root, k, &mut removed);
        proof {
            lemma_front_and_back(s, k);
            lemma_filter_sorted(s, |x: T| x.key_spec() <= k);
            lemma_filter_sorted(s, |x: T| x.key_spec() > k);
            assert(removed@ =~= keys_at_most(s, k));
        }
        let rest = match rest {
            Some(mut root) => {
                let ghost before = elems(Some(root));
                root.color = Color::Black;
                assert(elems(Some(root)) == before);
                Some(root)
            },
            None => None,
        };
        *self = RedBlackTree { root: rest, size: size - removed.len() };
        removed
    }
}

/// Inserting into a sorted sequence keeps it sorted, so every tree's in-order items stay
/// sorted across insertions.
pub proof fn law_insert_keeps_order<T: SortKey>(s: Seq<T>, v: T)
    requires
        sorted_by_key(s),
    ensures
        sorted_by_key(inserted(s, v)),
{
    lemma_inserted_sorted(s, v);
}

/// After inserting `v`, an item with the key of `v` is present, every key present
/// before still is, no other key appears, and there is one item more.
pub proof fn law_insert_then_contains<T: SortKey>(s: Seq<T>, v: T, k: u64)
    requires
        sorted_by_key(s),
    ensures
        has_key(inserted(s, v), v.key_spec()),
        has_key(s, k) ==> has_key(inserted(s, v), k),
        has_key(inserted(s, v), k) ==> (has_key(s, k) || k == v.key_spec()),
        inserted(s, v).len() == s.len() + 1,
{
    let kv = v.key_spec();
    let b = keys_at_most(s, kv);
    let a = keys_above(s, kv);
    let pm = |x: T| x.key_spec() <= kv;
    let pa = |x: T| x.key_spec() > kv;
    lemma_inserted_sorted(s, v);
    lemma_has_key_split(b, v, a, k);
    lemma_has_key_split(b, v, a, kv);
    if has_key(s, k) && k != kv {
        let i = choose|i: int| 0 <= i < s.len() && s[i].key_spec() == k;
        if k <= kv {
            s.lemma_filter_contains(pm, i);
            let j = choose|j: int| 0 <= j < b.len() && b[j] == s[i];
        } else {
            s.lemma_filter_contains(pa, i);
            let j = choose|j: int| 0 <= j < a.len() && a[j] == s[i];
        }
    }
    if has_key(b, k) {
        let j = choose|j: int| 0 <= j < b.len() && b[j].key_spec() == k;
        lemma_filter_member(s, pm, j);
        let i = choose|i: int| 0 <= i < s.len() && s[i] == b[j];
    }
    if has_key(a, k) {
        let j = choose|j: int| 0 <= j < a.len() && a[j].key_spec() == k;
        lemma_filter_member(s, pa, j);
        let i = choose|i: int| 0 <= i < s.len() && s[i] == a[j];
    }
}

/// Inserting keeps every item there was and adds `v`, also where an item with the same
/// key is present.
pub proof fn law_insert_keeps_items<T: SortKey>(s: Seq<T>, v: T, x: T)
    ensures
        inserted(s, v).contains(v),
        s.contains(x) ==> inserted(s, v).contains(x),
{
    let kv = v.key_spec();
    let b = keys_at_most(s, kv);
    let a = keys_above(s, kv);
    let t = inserted(s, v);
    let pm = |y: T| y.key_spec() <= kv;
    let pa = |y: T| y.key_spec() > kv;
    assert(t[b.len() as int] == v);
    if s.contains(x) {
        let i = choose|i: int| 0 <= i < s.len() && s[i] == x;
        if x.key_spec() <= kv {
            s.lemma_filter_contains(pm, i);
            let j = choose|j: int| 0 <= j < b.len() && b[j] == s[i];
            assert(t[j] == b[j]);
        } else {
            s.lemma_filter_contains(pa, i);
            let j = choose|j: int| 0 <= j < a.len() && a[j] == s[i];
            assert(t[b.len() + 1 + j] == a[j]);
        }
    }
}

/// The items that inserting each of `vs` in turn into `s` gives.
pub open spec fn inserted_all<T: SortKey>(s: Seq<T>, vs: Seq<T>) -> Seq<T>
    decreases vs.len(),
{
    if vs.len() == 0 {
        s
    } else {
        inserted(inserted_all(s, vs.drop_last()), vs.last())
    }
}

/// Every item after an insertion was there before or is the one inserted.
proof fn lemma_inserted_items_from<T: SortKey>(s: Seq<T>, v: T, x: T)
    requires
        inserted(s, v).contains(x),
    ensures
        s.contains(x) || x == v,
{
    let kv = v.key_spec();
    let b = keys_at_most(s, kv);
    let a = keys_above(s, kv);
    let t = inserted(s, v);
    let j = choose|j: int| 0 <= j < t.len() && t[j] == x;
    if j < b.len() {
        assert(t[j] == b[j]);
        lemma_filter_member(s, |y: T| y.key_spec() <= kv, j);
    } else if j > b.len() {
        assert(t[j] == a[j - b.len() - 1]);
        lemma_filter_member(s, |y: T| y.key_spec() > kv, j - b.len() - 1);
    }
}

/// The items up to a key and those above it are, together, the items of `s`.
proof fn lemma_split_multiset<T: SortKey>(s: Seq<T>, k: u64)
    ensures
        s.to_multiset() == keys_at_most(s, k).to_multiset().add(keys_above(s, k).to_multiset()),
    decreases s.len(),
{
    broadcast use vstd::multiset::group_multiset_axioms;
    let pm = |x: T| x.key_spec() <= k;
    let pa = |x: T| x.key_spec() > k;
    if s.len() == 0 {
        lemma_filter_none(s, pm);
        lemma_filter_none(s, pa);
        assert(s.to_multiset() =~= Multiset::<T>::empty()) by {
            s.to_multiset_ensures();
        }
        Seq::<T>::empty().to_multiset_ensures();
        assert(keys_at_most(s, k).to_multiset().add(keys_above(s, k).to_multiset()) =~= Multiset::<
            T,
        >::empty());
    } else {
        let d = s.drop_last();
        let x = s.last();
        lemma_split_multiset(d, k);
        assert(d.push(x) =~= s);
        vstd::seq_lib::to_multiset_build(d, x);
        assert(s.filter(pm) == if pm(x) { d.filter(pm).push(x) } else { d.filter(pm) }) by {
            reveal(Seq::filter);
        }
        assert(s.filter(pa) == if pa(x) { d.filter(pa).push(x) } else { d.filter(pa) }) by {
            reveal(Seq::filter);
        }
        if pm(x) {
            vstd::seq_lib::to_multiset_build(d.filter(pm), x);
        } else {
            vstd::seq_lib::to_multiset_build(d.filter(pa), x);
        }
        assert(s.to_multiset() =~= keys_at_most(s, k).to_multiset().add(
            keys_above(s, k).to_multiset(),
        ));
    }
}

/// Inserting adds exactly the inserted item: the items after are those before and `v`.
pub proof fn law_insert_adds_item<T: SortKey>(s: Seq<T>, v: T)
    ensures
        inserted(s, v).to_multiset() == s.to_multiset().insert(v),
{
    broadcast use vstd::multiset::group_multiset_axioms;
    let k = v.key_spec();
    let b = keys_at_most(s, k);
    let a = keys_above(s, k);
    lemma_split_multiset(s, k);
    vstd::seq_lib::lemma_multiset_commutative(b + seq![v], a);
    vstd::seq_lib::lemma_multiset_commutative(b, seq![v]);
    vstd::seq_lib::to_multiset_build(Seq::<T>::empty(), v);
    assert(Seq::<T>::empty().push(v) =~= seq![v]);
    Seq::<T>::empty().to_multiset_ensures();
    assert(Seq::<T>::empty().to_multiset() =~= Multiset::<T>::empty());
    assert(inserted(s, v).to_multiset() =~= s.to_multiset().insert(v));
}

/// Inserting items one after another into an empty tree lists them in increasing key
/// order: the listing is sorted and is a permutation of the inserted items (one item per
/// insertion, as often as it was inserted, and nothing else).
pub proof fn law_inserts_list_sorted<T: SortKey>(vs: Seq<T>)
    ensures
        sorted_by_key(inserted_all(Seq::empty(), vs)),
        inserted_all(Seq::empty(), vs).len() == vs.len(),
        inserted_all(Seq::empty(), vs).to_multiset() == vs.to_multiset(),
        forall|i: int| 0 <= i < vs.len() ==> inserted_all(Seq::empty(), vs).contains(#[trigger] vs[i]),
        forall|x: T| #[trigger] inserted_all(Seq::empty(), vs).contains(x) ==> vs.contains(x),
    decreases vs.len(),
{
    if vs.len() == 0 {
        lemma_sorted_empty::<T>();
        assert(vs =~= Seq::<T>::empty());
    } else {
        let d = vs.drop_last();
        let v = vs.last();
        law_inserts_list_sorted(d);
        let prev = inserted_all(Seq::empty(), d);
        lemma_inserted_sorted(prev, v);
        law_insert_adds_item(prev, v);
        assert(d.push(v) =~= vs);
        vstd::seq_lib::to_multiset_build(d, v);
        assert forall|i: int| 0 <= i < vs.len() implies inserted(prev, v).contains(#[trigger] vs[i]) by {
            law_insert_keeps_items(prev, v, vs[i]);
            if i < d.len() {
                assert(d[i] == vs[i]);
            }
        }
        assert forall|x: T| #[trigger] inserted(prev, v).contains(x) implies vs.contains(x) by {
            lemma_inserted_items_from(prev, v, x);
            if prev.contains(x) {
                let k = choose|k: int| 0 <= k < d.len() && d[k] == x;
                assert(vs[k] == x);
            } else {
                assert(vs[vs.len() - 1] == x);
            }
        }
    }
}

/// Filtering twice keeps what both filters keep.
proof fn lemma_filter_filter<T>(s: Seq<T>, p: spec_fn(T) -> bool, q: spec_fn(T) -> bool, r: spec_fn(T) -> bool)
    requires
        forall|x: T| #[trigger] r(x) == (p(x) && q(x)),
    ensures
        s.filter(p).filter(q) == s.filter(r),
    decreases s.len(),
{
    reveal(Seq::filter);
    if s.len() > 0 {
        let d = s.drop_last();
        lemma_filter_filter(d, p, q, r);
        let fp = d.filter(p);
        assert(r(s.last()) == (p(s.last()) && q(s.last())));
        if p(s.last()) {
            assert(fp.push(s.last()).drop_last() =~= fp);
        }
    }
}

/// Inserting two items whose keys differ gives the same items in either order: the items
/// up to the smaller key, the item with it, those between the keys, the item with the
/// larger key, and those above it.
proof fn lemma_insert_pair<T: SortKey>(s: Seq<T>, a: T, b: T)
    requires
        a.key_spec() < b.key_spec(),
    ensures
        inserted(inserted(s, a), b) == inserted(inserted(s, b), a),
{
    let ka = a.key_spec();
    let kb = b.key_spec();
    let pma = |x: T| x.key_spec() <= ka;
    let paa = |x: T| x.key_spec() > ka;
    let pmb = |x: T| x.key_spec() <= kb;
    let pab = |x: T| x.key_spec() > kb;
    let mid = |x: T| ka < x.key_spec() && x.key_spec() <= kb;
    let ma = s.filter(pma);
    let aa = s.filter(paa);
    let mb = s.filter(pmb);
    let ab = s.filter(pab);
    assert forall|i: int| 0 <= i < ma.len() implies pmb(#[trigger] ma[i]) && !pab(ma[i]) by {
        lemma_filter_member(s, pma, i);
    }
    assert forall|i: int| 0 <= i < ab.len() implies !pma(#[trigger] ab[i]) && paa(ab[i]) by {
        lemma_filter_member(s, pab, i);
    }
    lemma_filter_all(ma, pmb);
    lemma_filter_none(ma, pab);
    lemma_filter_none(ab, pma);
    lemma_filter_all(ab, paa);
    lemma_filter3(ma, a, aa, pmb);
    lemma_filter3(ma, a, aa, pab);
    lemma_filter3(mb, b, ab, pma);
    lemma_filter3(mb, b, ab, paa);
    lemma_filter_single(a, pmb);
    lemma_filter_single(a, pab);
    lemma_filter_single(b, pma);
    lemma_filter_single(b, paa);
    lemma_filter_filter(s, paa, pmb, mid);
    lemma_filter_filter(s, paa, pab, pab);
    lemma_filter_filter(s, pmb, pma, pma);
    lemma_filter_filter(s, pmb, paa, mid);
    let m = s.filter(mid);
    assert(inserted(inserted(s, a), b) =~= ma + seq![a] + m + seq![b] + ab);
    assert(inserted(inserted(s, b), a) =~= ma + seq![a] + m + seq![b] + ab);
}

/// Two insertions of items with different keys give the same items whichever comes first.
pub proof fn law_inserts_commute<T: SortKey>(s: Seq<T>, a: T, b: T)
    requires
        a.key_spec() != b.key_spec(),
    ensures
        inserted(inserted(s, a), b) == inserted(inserted(s, b), a),
{
    if a.key_spec() < b.key_spec() {
        lemma_insert_pair(s, a, b);
    } else {
        lemma_insert_pair(s, b, a);
    }
}

/// Taking out the items up to a bound takes every item whose key is at most the bound
/// and leaves every other.
pub proof fn law_remove_takes_due_items<T: SortKey>(s: Seq<T>, k: u64, x: T)
    requires
        s.contains(x),
    ensures
        x.key_spec() <= k ==> keys_at_most(s, k).contains(x),
        x.key_spec() > k ==> keys_above(s, k).contains(x),
{
    let i = choose|i: int| 0 <= i < s.len() && s[i] == x;
    if x.key_spec() <= k {
        s.lemma_filter_contains(|y: T| y.key_spec() <= k, i);
    } else {
        s.lemma_filter_contains(|y: T| y.key_spec() > k, i);
    }
}

proof fn lemma_sorted_drop_last<T: SortKey>(s: Seq<T>)
    requires
        sorted_by_key(s),
        s.len() > 0,
    ensures
        sorted_by_key(s.drop_last()),
        forall|i: int|
            0 <= i < s.drop_last().len() ==> #[trigger] s.drop_last()[i].key_spec()
                <= s.last().key_spec(),
{
    reveal(sorted_by_key);
    let d = s.drop_last();
    assert forall|i: int, j: int| 0 <= i < j < d.len() implies d[i].key_spec()
        <= d[j].key_spec() by {
        assert(d[i] == s[i] && d[j] == s[j]);
    }
    assert forall|i: int| 0 <= i < d.len() implies #[trigger] d[i].key_spec()
        <= s.last().key_spec() by {
        assert(d[i] == s[i]);
    }
}

proof fn lemma_above_keys<T: SortKey>(s: Seq<T>, k: u64, k2: u64)
    ensures
        k2 <= k ==> !has_key(keys_above(s, k), k2),
        k2 > k ==> (has_key(keys_above(s, k), k2) == has_key(s, k2)),
{
    let pa = |x: T| x.key_spec() > k;
    let a = keys_above(s, k);
    if has_key(a, k2) {
        let j = choose|j: int| 0 <= j < a.len() && a[j].key_spec() == k2;
        lemma_filter_member(s, pa, j);
        assert(s.contains(a[j]));
        let i = choose|i: int| 0 <= i < s.len() && s[i] == a[j];
        assert(s[i].key_spec() == k2);
    }
    if k2 > k && has_key(s, k2) {
        let i = choose|i: int| 0 <= i < s.len() && s[i].key_spec() == k2;
        s.lemma_filter_contains(pa, i);
        let j = choose|j: int| 0 <= j < a.len() && a[j] == s[i];
        assert(a[j].key_spec() == k2);
    }
}

/// In a sorted sequence the items at most a bound come first and those above it after:
/// what a removal takes out followed by what it leaves is what there was.
pub proof fn law_removed_then_rest_is_whole<T: SortKey>(s: Seq<T>, k: u64)
    requires
        sorted_by_key(s),
    ensures
        keys_at_most(s, k).len() + keys_above(s, k).len() == s.len(),
        forall|i: int| 0 <= i < keys_at_most(s, k).len() ==> #[trigger] keys_at_most(s, k)[i] == s[i],
        forall|j: int|
            0 <= j < keys_above(s, k).len() ==> #[trigger] keys_above(s, k)[j] == s[keys_at_most(
                s,
                k,
            ).len() + j],
{
    lemma_front_and_back(s, k);
}

/// Nothing a removal leaves has a key at most the bound, and every key above it stays.
pub proof fn law_remove_splits<T: SortKey>(s: Seq<T>, k: u64, k2: u64)
    ensures
        k2 <= k ==> !has_key(keys_above(s, k), k2),
        k2 > k ==> (has_key(keys_above(s, k), k2) == has_key(s, k2)),
{
    lemma_above_keys(s, k, k2);
}

/// A balanced tree is shallow: a tree of depth `d` holds at least `2^(d/2) - 1` items,
/// so a lookup walks at most about twice the binary logarithm of the count.
pub proof fn law_balanced_depth<T: SortKey>(t: &RedBlackTree<T>)
    requires
        t.is_balanced(),
    ensures
        pow2(t.depth() / 2) <= t@.len() + 1,
{
    let h = choose|h: nat| llrb(t.root, h);
    lemma_llrb_bounds(t.root, h);
    let d = t.depth() / 2;
    if d < h {
        vstd::arithmetic::power2::lemma_pow2_strictly_increases(d, h);
    }
}

} // verus!
