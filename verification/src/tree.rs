//! The directory tree that a scan builds: one node per file or directory.
use vstd::prelude::*;
use crate::order::{SortMode, is_listing_order, listing_order, listed, lemma_listing_order_of, precedes, index_range, lemma_key_compare_antisymmetric};

verus! {

/// A node in the directory tree.
#[derive(Debug)]
pub struct DirNode {
    pub name: String,
    /// Total size in bytes (recursive).
    pub size: u64,
    /// Total number of items (recursive), the node itself included.
    pub items: u64,
    pub children: Vec<DirNode>,
    pub is_dir: bool,
}

/// The sum of the sizes of a sequence of nodes.
pub open spec fn sum_sizes(s: Seq<DirNode>) -> int
    decreases s.len(),
{
    if s.len() == 0 {
        0
    } else {
        sum_sizes(s.drop_last()) + s.last().size
    }
}

/// The sum of the item counts of a sequence of nodes.
pub open spec fn sum_items(s: Seq<DirNode>) -> int
    decreases s.len(),
{
    if s.len() == 0 {
        0
    } else {
        sum_items(s.drop_last()) + s.last().items
    }
}

/// The nodes of `items` taken in the order that `order` lists their positions.
pub open spec fn arranged(items: Seq<DirNode>, order: Seq<usize>) -> Seq<DirNode> {
    order.map_values(|i: usize| items[i as int])
}

/// The sum of the sizes of the nodes still held in a sequence of slots.
pub open spec fn slot_sizes(s: Seq<Option<DirNode>>) -> int
    decreases s.len(),
{
    if s.len() == 0 {
        0
    } else {
        slot_sizes(s.drop_last()) + match s.last() {
            Some(n) => n.size as int,
            None => 0,
        }
    }
}

/// The sum of the item counts of the nodes still held in a sequence of slots.
pub open spec fn slot_items(s: Seq<Option<DirNode>>) -> int
    decreases s.len(),
{
    if s.len() == 0 {
        0
    } else {
        slot_items(s.drop_last()) + match s.last() {
            Some(n) => n.items as int,
            None => 0,
        }
    }
}

proof fn lemma_slot_totals_take(s: Seq<Option<DirNode>>, i: int)
    requires
        0 <= i < s.len(),
        s[i] is Some,
    ensures
        slot_sizes(s.update(i, None)) == slot_sizes(s) - s[i]->0.size,
        slot_items(s.update(i, None)) == slot_items(s) - s[i]->0.items,
    decreases s.len(),
{
    if i == s.len() - 1 {
        assert(s.update(i, None).drop_last() =~= s.drop_last());
    } else {
        assert(s.update(i, None).drop_last() =~= s.drop_last().update(i, None));
        lemma_slot_totals_take(s.drop_last(), i);
    }
}

proof fn lemma_slot_totals_empty(s: Seq<Option<DirNode>>)
    requires
        forall|j: int| 0 <= j < s.len() ==> #[trigger] s[j] is None,
    ensures
        slot_sizes(s) == 0,
        slot_items(s) == 0,
    decreases s.len(),
{
    if s.len() > 0 {
        lemma_slot_totals_empty(s.drop_last());
    }
}

proof fn lemma_slot_totals_full(nodes: Seq<DirNode>, s: Seq<Option<DirNode>>)
    requires
        s.len() == nodes.len(),
        forall|j: int| 0 <= j < s.len() ==> #[trigger] s[j] == Some(nodes[j]),
    ensures
        slot_sizes(s) == sum_sizes(nodes),
        slot_items(s) == sum_items(nodes),
    decreases s.len(),
{
    if s.len() > 0 {
        lemma_slot_totals_full(nodes.drop_last(), s.drop_last());
    }
}

/// The totals of a prefix never exceed the totals of the whole sequence.
pub proof fn lemma_prefix_totals_bounded(s: Seq<DirNode>, k: int)
    requires
        0 <= k <= s.len(),
    ensures
        sum_sizes(s.take(k)) <= sum_sizes(s),
        sum_items(s.take(k)) <= sum_items(s),
    decreases s.len(),
{
    if k < s.len() {
        assert(s.take(k) =~= s.drop_last().take(k));
        lemma_prefix_totals_bounded(s.drop_last(), k);
    } else {
        assert(s.take(k) =~= s);
    }
}

impl DirNode {
    /// The totals of this node agree with its own children: a directory holds
    /// the sum of its children's sizes and one more item than they do together;
    /// a file counts as one item and has no children.
    pub open spec fn totals_agree(self) -> bool {
        if self.is_dir {
            &&& self.size == sum_sizes(self.children@)
            &&& self.items == 1 + sum_items(self.children@)
        } else {
            &&& self.items == 1
            &&& self.children@.len() == 0
        }
    }

    /// The totals agree at this node and at every node below it.
    pub open spec fn consistent(self) -> bool
        decreases self,
    {
        &&& self.totals_agree()
        &&& forall|i: int|
            0 <= i < self.children@.len() ==> (#[trigger] self.children@[i]).consistent()
    }

    /// A leaf node for a file (or a symlink) of `size` bytes.
    pub fn file(name: String, size: u64) -> (node: DirNode)
        ensures
            node.name == name,
            node.size == size,
            node.items == 1,
            node.children@.len() == 0,
            !node.is_dir,
            node.consistent(),
    {
        DirNode { name, size, items: 1, children: Vec::new(), is_dir: false }
    }
}

/// Whether the totals of `dirs` and `files` together fit the counters of a
/// directory node.
pub fn totals_fit(dirs: &Vec<DirNode>, files: &Vec<DirNode>) -> (fits: bool)
    ensures
        fits == (sum_sizes(dirs@ + files@) <= u64::MAX && 1 + sum_items(dirs@ + files@) <= u64::MAX),
{
    let ghost whole = dirs@ + files@;
    let mut size: u64 = 0;
    let mut items: u64 = 1;
    let mut k: usize = 0;
    assert(whole.take(0) =~= Seq::<DirNode>::empty());
    while k < dirs.len()
        invariant
            k <= dirs@.len(),
            whole == dirs@ + files@,
            size == sum_sizes(whole.take(k as int)),
            items == 1 + sum_items(whole.take(k as int)),
        decreases dirs@.len() - k,
    {
        assert(dirs@[k as int] == whole[k as int]);
        assert(whole.take(k + 1).drop_last() =~= whole.take(k as int));
        proof {
            lemma_prefix_totals_bounded(whole, k + 1);
        }
        if dirs[k].size > u64::MAX - size || dirs[k].items > u64::MAX - items {
            return false;
        }
        size = size + dirs[k].size;
        items = items + dirs[k].items;
        k += 1;
    }
    let mut f: usize = 0;
    while f < files.len()
        invariant
            f <= files@.len(),
            whole == dirs@ + files@,
            size == sum_sizes(whole.take(dirs@.len() + f)),
            items == 1 + sum_items(whole.take(dirs@.len() + f)),
        decreases files@.len() - f,
    {
        let ghost at = dirs@.len() + f;
        assert(files@[f as int] == whole[at]);
        assert(whole.take(at + 1).drop_last() =~= whole.take(at));
        proof {
            lemma_prefix_totals_bounded(whole, at + 1);
        }
        if files[f].size > u64::MAX - size || files[f].items > u64::MAX - items {
            return false;
        }
        size = size + files[f].size;
        items = items + files[f].items;
        f += 1;
    }
    assert(whole.take(whole.len() as int) =~= whole);
    true
}

impl DirNode {
    /// A directory node whose children are the subdirectories `dirs` and the
    /// files `files`, listed largest first (ties keep subdirectories first, each
    /// group in its own order), with the totals of all of them.
    pub fn directory(name: String, dirs: Vec<DirNode>, files: Vec<DirNode>) -> (node: DirNode)
        requires
            sum_sizes(dirs@ + files@) <= u64::MAX,
            1 + sum_items(dirs@ + files@) <= u64::MAX,
        ensures
            node.name == name,
            node.is_dir,
            node.size == sum_sizes(dirs@ + files@),
            node.items == 1 + sum_items(dirs@ + files@),
            node.children@ == listed(dirs@ + files@, SortMode::SizeDesc),
            node.totals_agree(),
            (forall|i: int|
                0 <= i < (dirs@ + files@).len() ==> (#[trigger] (dirs@ + files@)[i]).consistent())
                ==> node.consistent(),
    {
        let mut all = dirs;
        let mut rest = files;
        all.append(&mut rest);
        let ghost whole = all@;
        let n = all.len();
        let mut size: u64 = 0;
        let mut items: u64 = 1;
        let mut k: usize = 0;
        assert(whole.take(0) =~= Seq::<DirNode>::empty());
        while k < n
            invariant
                k <= n,
                n == whole.len(),
                all@ == whole,
                sum_sizes(whole) <= u64::MAX,
                1 + sum_items(whole) <= u64::MAX,
                size == sum_sizes(whole.take(k as int)),
                items == 1 + sum_items(whole.take(k as int)),
            decreases n - k,
        {
            proof {
                lemma_prefix_totals_bounded(whole, k + 1);
                assert(whole.take(k + 1).drop_last() =~= whole.take(k as int));
            }
            size = size + all[k].size;
            items = items + all[k].items;
            k += 1;
        }
        assert(whole.take(n as int) =~= whole);
        let order = listing_order(&all, SortMode::SizeDesc);
        // Move the nodes into slots, in their own order, so that each can be taken out once.
        let mut backwards: Vec<DirNode> = Vec::new();
        while all.len() > 0
            invariant
                n == whole.len(),
                all@ == whole.take(all@.len() as int),
                backwards@.len() + all@.len() == n,
                forall|m: int| 0 <= m < backwards@.len() ==> #[trigger] backwards@[m] == whole[n - 1 - m],
            decreases all@.len(),
        {
            let x = all.pop().unwrap();
            assert(whole.take(all@.len() as int) =~= whole.take(all@.len() as int + 1).drop_last());
            backwards.push(x);
        }
        let mut slots: Vec<Option<DirNode>> = Vec::new();
        while backwards.len() > 0
            invariant
                n == whole.len(),
                slots@.len() + backwards@.len() == n,
                forall|m: int| 0 <= m < backwards@.len() ==> #[trigger] backwards@[m] == whole[n - 1 - m],
                forall|m: int| 0 <= m < slots@.len() ==> #[trigger] slots@[m] == Some(whole[m]),
            decreases backwards@.len(),
        {
            let x = backwards.pop().unwrap();
            slots.push(Some(x));
        }
        proof {
            lemma_slot_totals_full(whole, slots@);
        }
        let mut children: Vec<DirNode> = Vec::new();
        let mut k: usize = 0;
        assert(order@.take(0) =~= Seq::<usize>::empty());
        assert(arranged(whole, order@.take(0)) =~= Seq::<DirNode>::empty());
        while k < n
            invariant
                k <= n,
                n == whole.len(),
                order@.len() == n,
                is_listing_order(whole, SortMode::SizeDesc, order@),
                forall|m: int| 0 <= m < order@.len() ==> #[trigger] order@[m] < n,
                slots@.len() == n,
                children@ == arranged(whole, order@.take(k as int)),
                forall|j: int|
                    0 <= j < n ==> #[trigger] slots@[j] == (if order@.take(k as int).contains(
                        j as usize,
                    ) {
                        None
                    } else {
                        Some(whole[j])
                    }),
                sum_sizes(children@) + slot_sizes(slots@) == sum_sizes(whole),
                sum_items(children@) + slot_items(slots@) == sum_items(whole),
            decreases n - k,
        {
            let j = order[k];
            proof {
                if order@.take(k as int).contains(j) {
                    let m = choose|m: int| 0 <= m < k && order@.take(k as int)[m] == j;
                    assert(precedes(whole, SortMode::SizeDesc, order@[m], order@[k as int]));
                    lemma_key_compare_antisymmetric(SortMode::SizeDesc, whole[j as int], whole[j as int]);
                }
                assert(slots@[j as int] == Some(whole[j as int]));
                lemma_slot_totals_take(slots@, j as int);
                assert(order@.take(k + 1) =~= order@.take(k as int).push(j));
                assert forall|v: usize| #[trigger] order@.take(k + 1).contains(v) <==> (order@.take(
                    k as int,
                ).contains(v) || v == j) by {
                    if order@.take(k as int).contains(v) {
                        let m = choose|m: int| 0 <= m < k && order@.take(k as int)[m] == v;
                        assert(order@.take(k + 1)[m] == v);
                    }
                    if v == j {
                        assert(order@.take(k + 1)[k as int] == v);
                    }
                }
            }
            let taken = slots[j].take();
            let node = taken.unwrap();
            children.push(node);
            proof {
                assert(arranged(whole, order@.take(k + 1)) =~= arranged(whole, order@.take(k as int)).push(whole[j as int]));
                assert(children@.drop_last() =~= arranged(whole, order@.take(k as int)));
            }
            k += 1;
        }
        proof {
            assert(order@.take(n as int) =~= order@);
            assert forall|j: int| 0 <= j < n implies #[trigger] slots@[j] is None by {
                broadcast use vstd::seq_lib::group_to_multiset_ensures;
                assert(index_range(0, n as int)[j] == j as usize);
                assert(index_range(0, n as int).contains(j as usize));
                assert(order@.to_multiset().count(j as usize) > 0);
                assert(order@.contains(j as usize));
            }
            lemma_slot_totals_empty(slots@);
            lemma_listing_order_of(whole, SortMode::SizeDesc, order@);
            if forall|i: int| 0 <= i < whole.len() ==> (#[trigger] whole[i]).consistent() {
                assert forall|i: int| 0 <= i < children@.len() implies (#[trigger] children@[i]).consistent() by {
                    assert(children@[i] == whole[order@[i] as int]);
                }
            }
        }
        DirNode { name, size, items, children, is_dir: true }
    }
}

} // verus!
