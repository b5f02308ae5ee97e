//! Sort modes and the stable ordering of a directory's children.
use vstd::prelude::*;
use crate::tree::{DirNode, arranged};
use crate::text::utf8_bytes;

verus! {

broadcast use vstd::seq_lib::group_to_multiset_ensures;

/// The order in which the children of a directory are listed.
#[derive(Debug, Clone, Copy, PartialEq, Eq, Structural)]
pub enum SortMode {
    SizeDesc,
    SizeAsc,
    NameAsc,
    NameDesc,
}

impl SortMode {
    /// The mode that follows this one when cycling.
    pub open spec fn following(self) -> SortMode {
        match self {
            SortMode::SizeDesc => SortMode::SizeAsc,
            SortMode::SizeAsc => SortMode::NameAsc,
            SortMode::NameAsc => SortMode::NameDesc,
            SortMode::NameDesc => SortMode::SizeDesc,
        }
    }

    /// The name of the mode shown in the status bar.
    pub open spec fn label_text(self) -> Seq<char> {
        match self {
            SortMode::SizeDesc => "size desc"@,
            SortMode::SizeAsc => "size asc"@,
            SortMode::NameAsc => "name asc"@,
            SortMode::NameDesc => "name desc"@,
        }
    }

    /// The name of the mode shown in the status bar.
    pub fn label(&self) -> (s: &'static str)
        ensures
            s@ == self.label_text(),
    {
        match self {
            SortMode::SizeDesc => "size desc",
            SortMode::SizeAsc => "size asc",
            SortMode::NameAsc => "name asc",
            SortMode::NameDesc => "name desc",
        }
    }

    /// Size descending, size ascending, name ascending, name descending, and round again.
    pub fn next(&self) -> (m: SortMode)
        ensures
            m == self.following(),
    {
        match self {
            SortMode::SizeDesc => SortMode::SizeAsc,
            SortMode::SizeAsc => SortMode::NameAsc,
            SortMode::NameAsc => SortMode::NameDesc,
            SortMode::NameDesc => SortMode::SizeDesc,
        }
    }
}

/// Byte-wise lexicographic comparison: negative, zero or positive as `a` sorts
/// before, equal to or after `b`.
pub open spec fn lex_compare(a: Seq<u8>, b: Seq<u8>) -> int
    decreases a.len(),
{
    if a.len() == 0 {
        if b.len() == 0 { 0 } else { -1 }
    } else if b.len() == 0 {
        1
    } else if a[0] < b[0] {
        -1
    } else if a[0] > b[0] {
        1
    } else {
        lex_compare(a.drop_first(), b.drop_first())
    }
}

/// Swapping the arguments negates the comparison.
pub proof fn lemma_lex_compare_antisymmetric(a: Seq<u8>, b: Seq<u8>)
    ensures
        lex_compare(a, b) == -lex_compare(b, a),
        -1 <= lex_compare(a, b) <= 1,
    decreases a.len(),
{
    if a.len() > 0 && b.len() > 0 && a[0] == b[0] {
        lemma_lex_compare_antisymmetric(a.drop_first(), b.drop_first());
    }
}

/// Two byte strings compare equal exactly when they are the same.
pub proof fn lemma_lex_compare_zero(a: Seq<u8>, b: Seq<u8>)
    ensures
        lex_compare(a, b) == 0 <==> a == b,
    decreases a.len(),
{
    if a.len() > 0 && b.len() > 0 {
        if a[0] == b[0] {
            lemma_lex_compare_zero(a.drop_first(), b.drop_first());
            if a.drop_first() == b.drop_first() {
                assert(a =~= seq![a[0]] + a.drop_first());
                assert(b =~= seq![b[0]] + b.drop_first());
            }
        } else {
            assert(a[0] != b[0]);
        }
    } else if a.len() == 0 && b.len() > 0 {
        assert(a != b);
    } else if a.len() > 0 && b.len() == 0 {
        assert(a != b);
    } else {
        assert(a =~= b);
    }
}

/// Sorting before is transitive.
pub proof fn lemma_lex_compare_transitive(a: Seq<u8>, b: Seq<u8>, c: Seq<u8>)
    requires
        lex_compare(a, b) < 0,
        lex_compare(b, c) < 0,
    ensures
        lex_compare(a, c) < 0,
    decreases a.len(),
{
    if a.len() > 0 && b.len() > 0 && c.len() > 0 && a[0] == b[0] && b[0] == c[0] {
        lemma_lex_compare_transitive(a.drop_first(), b.drop_first(), c.drop_first());
    }
}

/// How two nodes compare under a sort mode: negative when `a` is listed
/// before `b`, zero when the mode does not tell them apart.
pub open spec fn key_compare(mode: SortMode, a: DirNode, b: DirNode) -> int {
    match mode {
        SortMode::SizeDesc => if a.size > b.size { -1 } else if a.size < b.size { 1 } else { 0 },
        SortMode::SizeAsc => if a.size < b.size { -1 } else if a.size > b.size { 1 } else { 0 },
        SortMode::NameAsc => lex_compare(utf8_bytes(a.name@), utf8_bytes(b.name@)),
        SortMode::NameDesc => lex_compare(utf8_bytes(b.name@), utf8_bytes(a.name@)),
    }
}

/// Position `i` of `items` is listed before position `j`: its key sorts
/// first, or the keys tie and it came first (the order is stable).
pub open spec fn precedes(items: Seq<DirNode>, mode: SortMode, i: usize, j: usize) -> bool {
    let c = key_compare(mode, items[i as int], items[j as int]);
    c < 0 || (c == 0 && i < j)
}

/// `order` lists every position of `items` once, each before the next.
pub open spec fn is_listing_order(items: Seq<DirNode>, mode: SortMode, order: Seq<usize>) -> bool {
    &&& order.to_multiset() == index_range(0, items.len() as int).to_multiset()
    &&& forall|k: int, l: int|
        0 <= k < l < order.len() ==> precedes(items, mode, #[trigger] order[k], #[trigger] order[l])
}

/// The positions `lo`, `lo + 1`, ..., `hi - 1`.
pub open spec fn index_range(lo: int, hi: int) -> Seq<usize> {
    Seq::new((if hi > lo { hi - lo } else { 0 }) as nat, |k: int| (lo + k) as usize)
}

/// `key_compare` is antisymmetric and ties exactly when keys are equal.
pub proof fn lemma_key_compare_antisymmetric(mode: SortMode, a: DirNode, b: DirNode)
    ensures
        key_compare(mode, a, b) == -key_compare(mode, b, a),
{
    lemma_lex_compare_antisymmetric(utf8_bytes(a.name@), utf8_bytes(b.name@));
}

/// Ties under `key_compare` are transitive and compatible with sorting before.
pub proof fn lemma_key_compare_transitive(mode: SortMode, a: DirNode, b: DirNode, c: DirNode)
    requires
        key_compare(mode, a, b) <= 0,
        key_compare(mode, b, c) <= 0,
    ensures
        key_compare(mode, a, c) <= 0,
        key_compare(mode, a, c) == 0 ==> key_compare(mode, a, b) == 0 && key_compare(mode, b, c) == 0,
{
    let (x, y, z) = (utf8_bytes(a.name@), utf8_bytes(b.name@), utf8_bytes(c.name@));
    lemma_lex_compare_zero(x, y);
    lemma_lex_compare_zero(y, z);
    lemma_lex_compare_zero(x, z);
    lemma_lex_compare_zero(z, y);
    lemma_lex_compare_zero(y, x);
    lemma_lex_compare_zero(z, x);
    lemma_lex_compare_antisymmetric(x, y);
    lemma_lex_compare_antisymmetric(y, z);
    lemma_lex_compare_antisymmetric(x, z);
    match mode {
        SortMode::NameAsc => {
            if lex_compare(x, y) < 0 && lex_compare(y, z) < 0 {
                lemma_lex_compare_transitive(x, y, z);
            }
        },
        SortMode::NameDesc => {
            if lex_compare(z, y) < 0 && lex_compare(y, x) < 0 {
                lemma_lex_compare_transitive(z, y, x);
            }
        },
        _ => {},
    }
}

/// Listing before is transitive.
pub proof fn lemma_precedes_transitive(
    items: Seq<DirNode>,
    mode: SortMode,
    i: usize,
    j: usize,
    k: usize,
)
    requires
        precedes(items, mode, i, j),
        precedes(items, mode, j, k),
    ensures
        precedes(items, mode, i, k),
{
    lemma_key_compare_transitive(mode, items[i as int], items[j as int], items[k as int]);
}

/// Of two different positions, exactly one is listed before the other.
pub proof fn lemma_precedes_total(items: Seq<DirNode>, mode: SortMode, i: usize, j: usize)
    requires
        i != j,
    ensures
        precedes(items, mode, i, j) != precedes(items, mode, j, i),
{
    lemma_key_compare_antisymmetric(mode, items[i as int], items[j as int]);
}

/// Compares two byte strings lexicographically; the result is -1, 0 or 1.
pub fn compare_bytes(a: &[u8], b: &[u8]) -> (r: i8)
    ensures
        r == lex_compare(a@, b@),
{
    let mut i: usize = 0;
    assert(a@.skip(0) =~= a@);
    assert(b@.skip(0) =~= b@);
    while i < a.len() && i < b.len()
        invariant
            i <= a@.len(),
            i <= b@.len(),
            lex_compare(a@, b@) == lex_compare(a@.skip(i as int), b@.skip(i as int)),
        decreases a@.len() - i,
    {
        if a[i] < b[i] {
            return -1;
        }
        if a[i] > b[i] {
            return 1;
        }
        assert(a@.skip(i as int).drop_first() =~= a@.skip(i + 1));
        assert(b@.skip(i as int).drop_first() =~= b@.skip(i + 1));
        i += 1;
    }
    if a.len() == b.len() {
        0
    } else if i == a.len() {
        -1
    } else {
        1
    }
}

/// Compares two nodes under a sort mode; the result is -1, 0 or 1.
pub fn compare_nodes(mode: SortMode, a: &DirNode, b: &DirNode) -> (r: i8)
    ensures
        r == key_compare(mode, *a, *b),
{
    match mode {
        SortMode::SizeDesc => if a.size > b.size { -1 } else if a.size < b.size { 1 } else { 0 },
        SortMode::SizeAsc => if a.size < b.size { -1 } else if a.size > b.size { 1 } else { 0 },
        SortMode::NameAsc => compare_bytes(a.name.as_str().as_bytes(), b.name.as_str().as_bytes()),
        SortMode::NameDesc => compare_bytes(b.name.as_str().as_bytes(), a.name.as_str().as_bytes()),
    }
}

fn precedes_at(items: &Vec<DirNode>, mode: SortMode, i: usize, j: usize) -> (r: bool)
    requires
        i < items@.len(),
        j < items@.len(),
    ensures
        r == precedes(items@, mode, i, j),
{
    let c = compare_nodes(mode, &items[i], &items[j]);
    c < 0 || (c == 0 && i < j)
}

/// Each position in `s` is listed before every later one.
pub open spec fn sorted_positions(items: Seq<DirNode>, mode: SortMode, s: Seq<usize>) -> bool {
    forall|k: int, l: int|
        0 <= k < l < s.len() ==> precedes(items, mode, #[trigger] s[k], #[trigger] s[l])
}

/// Every position in `s` lies in `lo..hi`.
pub open spec fn positions_within(s: Seq<usize>, lo: int, hi: int) -> bool {
    forall|k: int| 0 <= k < s.len() ==> lo <= #[trigger] s[k] < hi
}

proof fn lemma_multiset_push_left(x: Seq<usize>, y: Seq<usize>, v: usize)
    ensures
        (x.push(v) + y).to_multiset() =~= (x + y).to_multiset().insert(v),
{
    broadcast use vstd::seq_lib::group_to_multiset_ensures;
    vstd::seq_lib::lemma_multiset_commutative(x.push(v), y);
    vstd::seq_lib::lemma_multiset_commutative(x, y);
}

proof fn lemma_multiset_push_right(x: Seq<usize>, y: Seq<usize>, v: usize)
    ensures
        (x + y.push(v)).to_multiset() =~= (x + y).to_multiset().insert(v),
{
    broadcast use vstd::seq_lib::group_to_multiset_ensures;
    vstd::seq_lib::lemma_multiset_commutative(x, y.push(v));
    vstd::seq_lib::lemma_multiset_commutative(x, y);
}

/// Merges two sorted runs of positions, the first run holding only smaller positions.
fn merge_runs(
    items: &Vec<DirNode>,
    mode: SortMode,
    a: Vec<usize>,
    b: Vec<usize>,
    Ghost(lo): Ghost<int>,
    Ghost(hi): Ghost<int>,
) -> (out: Vec<usize>)
    requires
        hi <= items@.len(),
        sorted_positions(items@, mode, a@),
        sorted_positions(items@, mode, b@),
        positions_within(a@, lo, hi),
        positions_within(b@, lo, hi),
        forall|k: int, l: int| 0 <= k < a@.len() && 0 <= l < b@.len() ==> a@[k] < b@[l],
    ensures
        sorted_positions(items@, mode, out@),
        positions_within(out@, lo, hi),
        out@.to_multiset() == (a@ + b@).to_multiset(),
{
    let mut out: Vec<usize> = Vec::new();
    let mut i: usize = 0;
    let mut j: usize = 0;
    assert(a@.take(0) + b@.take(0) =~= Seq::<usize>::empty());
    while i < a.len() || j < b.len()
        invariant
            i <= a@.len(),
            j <= b@.len(),
            hi <= items@.len(),
            sorted_positions(items@, mode, a@),
            sorted_positions(items@, mode, b@),
            positions_within(a@, lo, hi),
            positions_within(b@, lo, hi),
            forall|k: int, l: int| 0 <= k < a@.len() && 0 <= l < b@.len() ==> a@[k] < b@[l],
            sorted_positions(items@, mode, out@),
            positions_within(out@, lo, hi),
            out@.to_multiset() == (a@.take(i as int) + b@.take(j as int)).to_multiset(),
            forall|k: int|
                0 <= k < out@.len() && i < a@.len() ==> precedes(items@, mode, #[trigger] out@[k], a@[i as int]),
            forall|k: int|
                0 <= k < out@.len() && j < b@.len() ==> precedes(items@, mode, #[trigger] out@[k], b@[j as int]),
        decreases a@.len() - i + b@.len() - j,
    {
        let take_a = if j >= b.len() {
            true
        } else if i >= a.len() {
            false
        } else {
            precedes_at(items, mode, a[i], b[j])
        };
        if take_a {
            let v = a[i];
            proof {
                if j < b@.len() {
                    assert(precedes(items@, mode, v, b@[j as int]));
                }
                assert(a@.take(i + 1) =~= a@.take(i as int).push(v));
                lemma_multiset_push_left(a@.take(i as int), b@.take(j as int), v);
                if i + 1 < a@.len() {
                    assert(precedes(items@, mode, a@[i as int], a@[i + 1]));
                    assert forall|k: int| 0 <= k < out@.len() implies precedes(
                        items@,
                        mode,
                        #[trigger] out@[k],
                        a@[i + 1],
                    ) by {
                        lemma_precedes_transitive(items@, mode, out@[k], v, a@[i + 1]);
                    }
                }
            }
            out.push(v);
            i += 1;
        } else {
            let v = b[j];
            proof {
                if i < a@.len() {
                    assert(a@[i as int] < v);
                    lemma_precedes_total(items@, mode, a@[i as int], v);
                    assert(precedes(items@, mode, v, a@[i as int]));
                }
                assert(b@.take(j + 1) =~= b@.take(j as int).push(v));
                lemma_multiset_push_right(a@.take(i as int), b@.take(j as int), v);
                if j + 1 < b@.len() {
                    assert(precedes(items@, mode, b@[j as int], b@[j + 1]));
                    assert forall|k: int| 0 <= k < out@.len() implies precedes(
                        items@,
                        mode,
                        #[trigger] out@[k],
                        b@[j + 1],
                    ) by {
                        lemma_precedes_transitive(items@, mode, out@[k], v, b@[j + 1]);
                    }
                }
            }
            out.push(v);
            j += 1;
        }
    }
    assert(a@.take(a@.len() as int) =~= a@);
    assert(b@.take(b@.len() as int) =~= b@);
    out
}

fn sort_positions(items: &Vec<DirNode>, mode: SortMode, lo: usize, hi: usize) -> (out: Vec<usize>)
    requires
        lo <= hi <= items@.len(),
    ensures
        sorted_positions(items@, mode, out@),
        positions_within(out@, lo as int, hi as int),
        out@.to_multiset() == index_range(lo as int, hi as int).to_multiset(),
    decreases hi - lo,
{
    if hi - lo <= 1 {
        let mut out: Vec<usize> = Vec::new();
        if hi > lo {
            out.push(lo);
        }
        assert(out@ =~= index_range(lo as int, hi as int));
        return out;
    }
    let mid = lo + (hi - lo) / 2;
    let a = sort_positions(items, mode, lo, mid);
    let b = sort_positions(items, mode, mid, hi);
    proof {
        assert(index_range(lo as int, mid as int) + index_range(mid as int, hi as int)
            =~= index_range(lo as int, hi as int));
        vstd::seq_lib::lemma_multiset_commutative(a@, b@);
        vstd::seq_lib::lemma_multiset_commutative(
            index_range(lo as int, mid as int),
            index_range(mid as int, hi as int),
        );
    }
    merge_runs(items, mode, a, b, Ghost(lo as int), Ghost(hi as int))
}

/// The positions of `items` in the order in which `mode` lists them: by key,
/// and by position among equal keys.
pub fn listing_order(items: &Vec<DirNode>, mode: SortMode) -> (order: Vec<usize>)
    ensures
        is_listing_order(items@, mode, order@),
        order@.len() == items@.len(),
        forall|k: int| 0 <= k < order@.len() ==> #[trigger] order@[k] < items@.len(),
{
    let order = sort_positions(items, mode, 0, items.len());
    proof {
        broadcast use vstd::seq_lib::group_to_multiset_ensures;
        assert(order@.len() == order@.to_multiset().len());
    }
    order
}

proof fn lemma_orders_agree_up_to(
    items: Seq<DirNode>,
    mode: SortMode,
    p: Seq<usize>,
    q: Seq<usize>,
    k: int,
)
    requires
        is_listing_order(items, mode, p),
        is_listing_order(items, mode, q),
        0 <= k < p.len(),
        p.len() == q.len(),
    ensures
        forall|m: int| 0 <= m <= k ==> p[m] == q[m],
    decreases k,
{
    if k > 0 {
        lemma_orders_agree_up_to(items, mode, p, q, k - 1);
    }
    let x = p[k];
    let y = q[k];
    if x != y {
        assert(p.to_multiset().count(y) > 0) by {
            assert(q.contains(y));
        }
        assert(p.contains(y));
        let l = choose|l: int| 0 <= l < p.len() && p[l] == y;
        assert(q.to_multiset().count(x) > 0) by {
            assert(p.contains(x));
        }
        assert(q.contains(x));
        let m = choose|m: int| 0 <= m < q.len() && q[m] == x;
        if l < k {
            assert(q[l] == y);
            assert(precedes(items, mode, q[l], q[k]));
            lemma_key_compare_antisymmetric(mode, items[y as int], items[y as int]);
        }
        if m < k {
            assert(p[m] == x);
            assert(precedes(items, mode, p[m], p[k]));
            lemma_key_compare_antisymmetric(mode, items[x as int], items[x as int]);
        }
        assert(l > k && m > k);
        assert(precedes(items, mode, p[k], p[l]));
        assert(precedes(items, mode, q[k], q[m]));
        lemma_precedes_total(items, mode, x, y);
    }
}

/// A listing order is unique: the contract of `listing_order` fixes its result.
pub proof fn lemma_listing_order_unique(
    items: Seq<DirNode>,
    mode: SortMode,
    p: Seq<usize>,
    q: Seq<usize>,
)
    requires
        is_listing_order(items, mode, p),
        is_listing_order(items, mode, q),
    ensures
        p == q,
{
    assert(p.len() == q.len()) by {
        assert(p.to_multiset().len() == q.to_multiset().len());
    }
    if p.len() > 0 {
        lemma_orders_agree_up_to(items, mode, p, q, p.len() - 1);
    }
    assert(p =~= q);
}

/// The listing order of `items` under `mode` (there is exactly one).
pub open spec fn listing_order_of(items: Seq<DirNode>, mode: SortMode) -> Seq<usize> {
    choose|order: Seq<usize>| is_listing_order(items, mode, order)
}

/// The nodes of `items` in the order in which `mode` lists them.
pub open spec fn listed(items: Seq<DirNode>, mode: SortMode) -> Seq<DirNode> {
    arranged(items, listing_order_of(items, mode))
}

/// Any listing order is the one that `listing_order_of` names.
pub proof fn lemma_listing_order_of(items: Seq<DirNode>, mode: SortMode, order: Seq<usize>)
    requires
        is_listing_order(items, mode, order),
    ensures
        listing_order_of(items, mode) == order,
        listed(items, mode) == arranged(items, order),
{
    lemma_listing_order_unique(items, mode, listing_order_of(items, mode), order);
}

/// Listed before or the same position.
pub open spec fn listing_leq(items: Seq<DirNode>, mode: SortMode) -> spec_fn(usize, usize) -> bool {
    |i: usize, j: usize| precedes(items, mode, i, j) || i == j
}

proof fn lemma_listing_leq_total(items: Seq<DirNode>, mode: SortMode)
    ensures
        vstd::relations::total_ordering(listing_leq(items, mode)),
{
    let r = listing_leq(items, mode);
    assert forall|x: usize, y: usize| #[trigger] r(x, y) && #[trigger] r(y, x) implies x == y by {
        if x != y {
            lemma_precedes_total(items, mode, x, y);
        }
    }
    assert forall|x: usize, y: usize, z: usize| #[trigger] r(x, y) && #[trigger] r(y, z) implies r(x, z) by {
        if x != y && y != z {
            lemma_precedes_transitive(items, mode, x, y, z);
        }
    }
    assert forall|x: usize, y: usize| #[trigger] r(x, y) || #[trigger] r(y, x) by {
        if x != y {
            lemma_precedes_total(items, mode, x, y);
        }
    }
}

/// Every sequence of nodes has a listing order under every mode.
pub proof fn lemma_listing_order_exists(items: Seq<DirNode>, mode: SortMode)
    requires
        items.len() <= usize::MAX,
    ensures
        is_listing_order(items, mode, listing_order_of(items, mode)),
{
    let range = index_range(0, items.len() as int);
    let leq = listing_leq(items, mode);
    lemma_listing_leq_total(items, mode);
    range.lemma_sort_by_ensures(leq);
    let o = range.sort_by(leq);
    assert forall|a: int, b: int| 0 <= a < range.len() && 0 <= b < range.len() && a != b implies range[a] != range[b] by {}
    assert(range.no_duplicates());
    range.lemma_multiset_has_no_duplicates();
    assert forall|x: usize| o.to_multiset().contains(x) implies o.to_multiset().count(x) == 1 by {}
    o.lemma_multiset_has_no_duplicates_conv();
    assert forall|k: int, l: int| 0 <= k < l < o.len() implies precedes(items, mode, #[trigger] o[k], #[trigger] o[l]) by {
        assert(leq(o[k], o[l]));
    }
    assert(is_listing_order(items, mode, o));
}

/// Cycling the sort mode four times comes back to where it started, through
/// four different modes.
pub proof fn lemma_sort_mode_cycle(m: SortMode)
    ensures
        m.following().following().following().following() == m,
        m.following() != m,
        m.following().following() != m,
        m.following().following().following() != m,
{
}

/// Under each mode the listing is ordered by that mode's key: sizes never
/// grow (size descending), never shrink (size ascending), and names never
/// sort backwards (name ascending) or forwards (name descending).
pub proof fn lemma_listing_ordered_by_key(items: Seq<DirNode>, mode: SortMode, i: int, j: int)
    requires
        0 <= i < j < items.len(),
        items.len() <= usize::MAX,
    ensures
        listed(items, mode).len() == items.len(),
        key_compare(mode, listed(items, mode)[i], listed(items, mode)[j]) <= 0,
        mode == SortMode::SizeDesc ==> listed(items, mode)[i].size >= listed(items, mode)[j].size,
        mode == SortMode::SizeAsc ==> listed(items, mode)[i].size <= listed(items, mode)[j].size,
        mode == SortMode::NameAsc ==> lex_compare(
            utf8_bytes(listed(items, mode)[i].name@),
            utf8_bytes(listed(items, mode)[j].name@),
        ) <= 0,
        mode == SortMode::NameDesc ==> lex_compare(
            utf8_bytes(listed(items, mode)[i].name@),
            utf8_bytes(listed(items, mode)[j].name@),
        ) >= 0,
{
    broadcast use vstd::seq_lib::group_to_multiset_ensures;
    lemma_listing_order_exists(items, mode);
    let o = listing_order_of(items, mode);
    assert(o.len() == items.len()) by {
        assert(o.to_multiset().len() == index_range(0, items.len() as int).to_multiset().len());
    }
    assert(precedes(items, mode, o[i], o[j]));
    lemma_lex_compare_antisymmetric(
        utf8_bytes(listed(items, mode)[i].name@),
        utf8_bytes(listed(items, mode)[j].name@),
    );
}

/// The listing has one row per child.
pub proof fn lemma_listing_len(items: Seq<DirNode>, mode: SortMode)
    requires
        items.len() <= usize::MAX,
    ensures
        listed(items, mode).len() == items.len(),
        listing_order_of(items, mode).len() == items.len(),
{
    broadcast use vstd::seq_lib::group_to_multiset_ensures;
    lemma_listing_order_exists(items, mode);
    assert(listing_order_of(items, mode).to_multiset().len() == index_range(0, items.len() as int).to_multiset().len());
}

/// The listing shows every child, in as many rows as there are children, and
/// each row is the child at some position.
pub proof fn lemma_listing_shows_each_child(items: Seq<DirNode>, mode: SortMode, i: int)
    requires
        0 <= i < items.len(),
        items.len() <= usize::MAX,
    ensures
        listed(items, mode).len() == items.len(),
        exists|k: int| 0 <= k < items.len() && listed(items, mode)[k] == items[i] && listing_order_of(items, mode)[k] == i,
        listed(items, mode)[i] == items[listing_order_of(items, mode)[i] as int],
        listing_order_of(items, mode)[i] < items.len(),
{
    broadcast use vstd::seq_lib::group_to_multiset_ensures;
    lemma_listing_order_exists(items, mode);
    let o = listing_order_of(items, mode);
    let range = index_range(0, items.len() as int);
    assert(o.len() == items.len()) by {
        assert(o.to_multiset().len() == range.to_multiset().len());
    }
    assert(range[i] == i as usize);
    assert(range.contains(i as usize));
    assert(o.to_multiset().count(i as usize) > 0);
    assert(o.contains(i as usize));
    let k = choose|k: int| 0 <= k < o.len() && o[k] == i as usize;
    assert(listed(items, mode)[k] == items[i]);
    assert(o.contains(o[i]));
    assert(o.to_multiset().count(o[i]) > 0);
    assert(range.contains(o[i]));
}

} // verus!
